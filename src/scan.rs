//! The stateless scanners: classification and end of `<!` constructs, and the
//! quote-aware search for the end of a tag.

use vstd::prelude::*;
use crate::error::{EofContext, Error};
use crate::search::{find_byte, find_byte2, find_byte3};

verus! {

pub const LT: u8 = 0x3C;
pub const GT: u8 = 0x3E;
pub const BANG: u8 = 0x21;
pub const SLASH: u8 = 0x2F;
pub const QUESTION: u8 = 0x3F;
pub const DASH: u8 = 0x2D;
pub const LBRACKET: u8 = 0x5B;
pub const RBRACKET: u8 = 0x5D;
pub const SQUOTE: u8 = 0x27;
pub const DQUOTE: u8 = 0x22;
pub const UPPER_D: u8 = 0x44;
pub const LOWER_D: u8 = 0x64;

/// The four bytes that XML treats as white space.
pub open spec fn is_ws(b: u8) -> bool {
    b == 0x20 || b == 0x0D || b == 0x0A || b == 0x09
}

/// Whether `b` is a space, carriage return, line feed or tab.
#[verifier::when_used_as_spec(is_ws)]
pub fn is_whitespace(b: u8) -> (r: bool)
    ensures
        r == is_ws(b),
{
    b == 0x20 || b == 0x0D || b == 0x0A || b == 0x09
}

/// The kind of a `<!` construct, told from the byte after `!`.
#[derive(Debug, Clone, Copy, PartialEq, Eq, Structural)]
pub enum BangType {
    /// `<![CDATA[...]]>`
    CData,
    /// `<!--...-->`
    Comment,
    /// `<!DOCTYPE...>`
    DocType,
}

/// The classification of the byte after `!`, or the error for it.
pub open spec fn bang_type_of(byte: Option<u8>) -> Result<BangType, Error> {
    match byte {
        Some(b) => if b == LBRACKET {
            Ok(BangType::CData)
        } else if b == DASH {
            Ok(BangType::Comment)
        } else if b == UPPER_D || b == LOWER_D {
            Ok(BangType::DocType)
        } else {
            Err(Error::UnexpectedBang(b))
        },
        None => Err(Error::UnexpectedEof(EofContext::Bang)),
    }
}

/// Count of `<` minus count of `>` in `s`.
pub open spec fn balance(s: Seq<u8>) -> int
    decreases s.len(),
{
    if s.len() == 0 {
        0
    } else {
        balance(s.drop_last()) + if s.last() == LT {
            1int
        } else if s.last() == GT {
            -1int
        } else {
            0int
        }
    }
}

/// Whether the `>` at position `i` of `chunk` closes a construct of kind `t`,
/// when `offset` bytes of it were scanned before `chunk`.
pub open spec fn bang_closes_at(t: BangType, chunk: Seq<u8>, offset: int, i: int) -> bool {
    0 <= i < chunk.len() && chunk[i] == GT && match t {
        BangType::Comment => offset + i > 4 && i >= 2 && chunk[i - 1] == DASH && chunk[i - 2]
            == DASH,
        BangType::CData => i >= 2 && chunk[i - 1] == RBRACKET && chunk[i - 2] == RBRACKET,
        BangType::DocType => balance(chunk.take(i)) == 0,
    }
}

/// How much of the bytes before the closing `>` at `i` a construct keeps:
/// a CDATA section drops its `]]`.
pub open spec fn bang_content_len(t: BangType, i: int) -> int {
    if t == BangType::CData {
        i - 2
    } else {
        i
    }
}

/// No `>` before `i` closes the construct.
pub open spec fn bang_open_before(t: BangType, chunk: Seq<u8>, offset: int, i: int) -> bool {
    forall|j: int| 0 <= j < i ==> !bang_closes_at(t, chunk, offset, j)
}

proof fn lemma_balance_skip(s: Seq<u8>, a: int, b: int)
    requires
        0 <= a <= b <= s.len(),
        forall|k: int| a <= k < b ==> s[k] != LT && s[k] != GT,
    ensures
        balance(s.take(b)) == balance(s.take(a)),
    decreases b - a,
{
    if b > a {
        lemma_balance_skip(s, a, b - 1);
        assert(s.take(b).drop_last() =~= s.take(b - 1));
    }
}

proof fn lemma_balance_step(s: Seq<u8>, i: int)
    requires
        0 <= i < s.len(),
    ensures
        balance(s.take(i + 1)) == balance(s.take(i)) + if s[i] == LT {
            1int
        } else if s[i] == GT {
            -1int
        } else {
            0int
        },
{
    assert(s.take(i + 1).drop_last() =~= s.take(i));
}

impl BangType {
    /// Classifies a `<!` construct from the byte after `!`: `[` starts a CDATA
    /// section, `-` a comment, `D` or `d` a DOCTYPE.
    pub fn new(byte: Option<u8>) -> (r: Result<BangType, Error>)
        ensures
            r == bang_type_of(byte),
    {
        match byte {
            Some(b) => if b == LBRACKET {
                Ok(BangType::CData)
            } else if b == DASH {
                Ok(BangType::Comment)
            } else if b == UPPER_D || b == LOWER_D {
                Ok(BangType::DocType)
            } else {
                Err(Error::UnexpectedBang(b))
            },
            None => Err(Error::UnexpectedEof(EofContext::Bang)),
        }
    }

    /// Finds the `>` that closes this construct in `chunk`, of which `offset`
    /// bytes were scanned before. Returns the content before it (without the
    /// `]]` of a CDATA section) and the number of bytes used, `>` included.
    pub fn parse<'b>(&self, chunk: &'b [u8], offset: usize) -> (r: Option<(&'b [u8], usize)>)
        ensures
            match r {
                Some((content, used)) => {
                    &&& 1 <= used <= chunk@.len()
                    &&& bang_closes_at(*self, chunk@, offset as int, used - 1)
                    &&& bang_open_before(*self, chunk@, offset as int, used - 1)
                    &&& content@ == chunk@.take(bang_content_len(*self, used - 1))
                },
                None => bang_open_before(*self, chunk@, offset as int, chunk@.len() as int),
            },
    {
        match self {
            BangType::DocType => Self::parse_doctype(chunk, offset),
            _ => self.parse_simple(chunk, offset),
        }
    }

    fn parse_simple<'b>(&self, chunk: &'b [u8], offset: usize) -> (r: Option<(&'b [u8], usize)>)
        requires
            *self != BangType::DocType,
        ensures
            match r {
                Some((content, used)) => {
                    &&& 1 <= used <= chunk@.len()
                    &&& bang_closes_at(*self, chunk@, offset as int, used - 1)
                    &&& bang_open_before(*self, chunk@, offset as int, used - 1)
                    &&& content@ == chunk@.take(bang_content_len(*self, used - 1))
                },
                None => bang_open_before(*self, chunk@, offset as int, chunk@.len() as int),
            },
    {
        let t = *self;
        let len = chunk.len();
        let mut pos: usize = 0;
        while pos < len
            invariant
                t == *self,
                t != BangType::DocType,
                len == chunk@.len(),
                pos <= len,
                bang_open_before(t, chunk@, offset as int, pos as int),
            decreases len - pos,
        {
            let rest = vstd::slice::slice_subrange(chunk, pos, len);
            match find_byte(GT, rest) {
                None => {
                    assert(bang_open_before(t, chunk@, offset as int, len as int)) by {
                        assert forall|j: int| pos <= j < len implies chunk@[j] != GT by {
                            assert(rest@[j - pos] == chunk@[j]);
                        }
                    }
                    return None;
                },
                Some(k) => {
                    let i = pos + k;
                    assert(rest@[k as int] == chunk@[i as int]);
                    assert forall|j: int| pos <= j < i implies chunk@[j] != GT by {
                        assert(rest@[j - pos] == chunk@[j]);
                    }
                    let closes = if t == BangType::Comment {
                        offset as u128 + i as u128 > 4 && i >= 2 && chunk[i - 1] == DASH && chunk[i
                            - 2] == DASH
                    } else {
                        i >= 2 && chunk[i - 1] == RBRACKET && chunk[i - 2] == RBRACKET
                    };
                    if closes {
                        let end = if t == BangType::CData {
                            i - 2
                        } else {
                            i
                        };
                        let content = vstd::slice::slice_subrange(chunk, 0, end);
                        return Some((content, i + 1));
                    }
                    assert(!bang_closes_at(t, chunk@, offset as int, i as int));
                    assert forall|j: int| 0 <= j < i + 1 implies !bang_closes_at(
                        t,
                        chunk@,
                        offset as int,
                        j,
                    ) by {
                        if j >= pos && j < i {
                            assert(chunk@[j] != GT);
                        } else if j < pos {
                            assert(!bang_closes_at(t, chunk@, offset as int, j));
                        }
                    }
                    pos = i + 1;
                },
            }
        }
        None
    }

    fn parse_doctype<'b>(chunk: &'b [u8], offset: usize) -> (r: Option<(&'b [u8], usize)>)
        ensures
            match r {
                Some((content, used)) => {
                    &&& 1 <= used <= chunk@.len()
                    &&& bang_closes_at(BangType::DocType, chunk@, offset as int, used - 1)
                    &&& bang_open_before(BangType::DocType, chunk@, offset as int, used - 1)
                    &&& content@ == chunk@.take(used - 1)
                },
                None => bang_open_before(
                    BangType::DocType,
                    chunk@,
                    offset as int,
                    chunk@.len() as int,
                ),
            },
    {
        let len = chunk.len();
        let mut pos: usize = 0;
        let mut opens: usize = 0;
        let mut closes: usize = 0;
        while pos < len
            invariant
                len == chunk@.len(),
                pos <= len,
                opens <= pos,
                closes <= pos,
                balance(chunk@.take(pos as int)) == opens - closes,
                bang_open_before(BangType::DocType, chunk@, offset as int, pos as int),
            decreases len - pos,
        {
            let rest = vstd::slice::slice_subrange(chunk, pos, len);
            match find_byte2(LT, GT, rest) {
                None => {
                    assert forall|j: int| pos <= j < len implies chunk@[j] != LT && chunk@[j]
                        != GT by {
                        assert(rest@[j - pos] == chunk@[j]);
                    }
                    assert(bang_open_before(BangType::DocType, chunk@, offset as int, len as int));
                    return None;
                },
                Some(k) => {
                    let i = pos + k;
                    assert(rest@[k as int] == chunk@[i as int]);
                    assert forall|j: int| pos <= j < i implies chunk@[j] != LT && chunk@[j]
                        != GT by {
                        assert(rest@[j - pos] == chunk@[j]);
                    }
                    assert(bang_open_before(BangType::DocType, chunk@, offset as int, i as int));
                    proof {
                        lemma_balance_skip(chunk@, pos as int, i as int);
                        lemma_balance_step(chunk@, i as int);
                    }
                    if chunk[i] == GT {
                        if opens == closes {
                            let content = vstd::slice::slice_subrange(chunk, 0, i);
                            return Some((content, i + 1));
                        }
                        closes = closes + 1;
                    } else {
                        assert(!bang_closes_at(BangType::DocType, chunk@, offset as int, i as int));
                        opens = opens + 1;
                    }
                    pos = i + 1;
                },
            }
        }
        None
    }

    /// The error for input that ends inside a construct of this kind.
    pub fn to_err(self) -> (r: Error)
        ensures
            r == eof_error_of(self),
    {
        match self {
            BangType::CData => Error::UnexpectedEof(EofContext::CData),
            BangType::Comment => Error::UnexpectedEof(EofContext::Comment),
            BangType::DocType => Error::UnexpectedEof(EofContext::DocType),
        }
    }
}

/// The error for input that ends inside a construct of kind `t`.
pub open spec fn eof_error_of(t: BangType) -> Error {
    match t {
        BangType::CData => Error::UnexpectedEof(EofContext::CData),
        BangType::Comment => Error::UnexpectedEof(EofContext::Comment),
        BangType::DocType => Error::UnexpectedEof(EofContext::DocType),
    }
}

/// Where the scan of a tag stands: outside quotes, or inside a quoted value.
#[derive(Debug, Clone, Copy, PartialEq, Eq, Structural)]
pub enum ReadElementState {
    /// Outside any quoted attribute value.
    Elem,
    /// Inside a value quoted with `'`.
    SingleQ,
    /// Inside a value quoted with `"`.
    DoubleQ,
}

/// The quote automaton after one more byte.
pub open spec fn elem_step(st: ReadElementState, b: u8) -> ReadElementState {
    match st {
        ReadElementState::Elem => if b == SQUOTE {
            ReadElementState::SingleQ
        } else if b == DQUOTE {
            ReadElementState::DoubleQ
        } else {
            ReadElementState::Elem
        },
        ReadElementState::SingleQ => if b == SQUOTE {
            ReadElementState::Elem
        } else {
            ReadElementState::SingleQ
        },
        ReadElementState::DoubleQ => if b == DQUOTE {
            ReadElementState::Elem
        } else {
            ReadElementState::DoubleQ
        },
    }
}

/// The quote automaton after the bytes of `s`, from `st`.
pub open spec fn elem_run(st: ReadElementState, s: Seq<u8>) -> ReadElementState
    decreases s.len(),
{
    if s.len() == 0 {
        st
    } else {
        elem_step(elem_run(st, s.drop_last()), s.last())
    }
}

/// Whether the byte at `i` of `chunk` is a `>` outside quotes, scanning from `st`.
pub open spec fn elem_closes_at(st: ReadElementState, chunk: Seq<u8>, i: int) -> bool {
    0 <= i < chunk.len() && chunk[i] == GT && elem_run(st, chunk.take(i))
        == ReadElementState::Elem
}

/// No byte before `i` ends the tag.
pub open spec fn elem_open_before(st: ReadElementState, chunk: Seq<u8>, i: int) -> bool {
    forall|j: int| 0 <= j < i ==> !elem_closes_at(st, chunk, j)
}

proof fn lemma_elem_run_skip(st: ReadElementState, s: Seq<u8>, a: int, b: int)
    requires
        0 <= a <= b <= s.len(),
        forall|k: int| a <= k < b ==> s[k] != GT && s[k] != SQUOTE && s[k] != DQUOTE,
    ensures
        elem_run(st, s.take(b)) == elem_run(st, s.take(a)),
    decreases b - a,
{
    if b > a {
        lemma_elem_run_skip(st, s, a, b - 1);
        assert(s.take(b).drop_last() =~= s.take(b - 1));
    }
}

proof fn lemma_elem_run_step(st: ReadElementState, s: Seq<u8>, i: int)
    requires
        0 <= i < s.len(),
    ensures
        elem_run(st, s.take(i + 1)) == elem_step(elem_run(st, s.take(i)), s[i]),
{
    assert(s.take(i + 1).drop_last() =~= s.take(i));
}

impl ReadElementState {
    /// Scans `chunk` for the `>` that ends a tag, outside quoted values.
    /// Returns the bytes before it and the number of bytes used, `>` included;
    /// when there is none, the state is left where the chunk ends.
    pub fn change<'b>(&mut self, chunk: &'b [u8]) -> (r: Option<(&'b [u8], usize)>)
        ensures
            match r {
                Some((content, used)) => {
                    &&& 1 <= used <= chunk@.len()
                    &&& elem_closes_at(*old(self), chunk@, used - 1)
                    &&& elem_open_before(*old(self), chunk@, used - 1)
                    &&& content@ == chunk@.take(used - 1)
                    &&& *final(self) == ReadElementState::Elem
                },
                None => {
                    &&& elem_open_before(*old(self), chunk@, chunk@.len() as int)
                    &&& *final(self) == elem_run(*old(self), chunk@)
                },
            },
    {
        let ghost st0 = *self;
        let len = chunk.len();
        let mut pos: usize = 0;
        while pos < len
            invariant
                st0 == *old(self),
                len == chunk@.len(),
                pos <= len,
                *self == elem_run(st0, chunk@.take(pos as int)),
                elem_open_before(st0, chunk@, pos as int),
            decreases len - pos,
        {
            let rest = vstd::slice::slice_subrange(chunk, pos, len);
            match find_byte3(GT, SQUOTE, DQUOTE, rest) {
                None => {
                    assert forall|j: int| pos <= j < len implies chunk@[j] != GT && chunk@[j]
                        != SQUOTE && chunk@[j] != DQUOTE by {
                        assert(rest@[j - pos] == chunk@[j]);
                    }
                    proof {
                        lemma_elem_run_skip(st0, chunk@, pos as int, len as int);
                        assert(chunk@.take(len as int) =~= chunk@);
                    }
                    assert(elem_open_before(st0, chunk@, len as int));
                    return None;
                },
                Some(k) => {
                    let i = pos + k;
                    assert(rest@[k as int] == chunk@[i as int]);
                    assert forall|j: int| pos <= j < i implies chunk@[j] != GT && chunk@[j]
                        != SQUOTE && chunk@[j] != DQUOTE by {
                        assert(rest@[j - pos] == chunk@[j]);
                    }
                    proof {
                        lemma_elem_run_skip(st0, chunk@, pos as int, i as int);
                        lemma_elem_run_step(st0, chunk@, i as int);
                    }
                    let b = chunk[i];
                    let cur = *self;
                    if cur == ReadElementState::Elem && b == GT {
                        let content = vstd::slice::slice_subrange(chunk, 0, i);
                        return Some((content, i + 1));
                    }
                    *self = if cur == ReadElementState::Elem {
                        if b == SQUOTE {
                            ReadElementState::SingleQ
                        } else if b == DQUOTE {
                            ReadElementState::DoubleQ
                        } else {
                            ReadElementState::Elem
                        }
                    } else if cur == ReadElementState::SingleQ {
                        if b == SQUOTE {
                            ReadElementState::Elem
                        } else {
                            ReadElementState::SingleQ
                        }
                    } else {
                        if b == DQUOTE {
                            ReadElementState::Elem
                        } else {
                            ReadElementState::DoubleQ
                        }
                    };
                    assert(!elem_closes_at(st0, chunk@, i as int));
                    pos = i + 1;
                },
            }
        }
        proof {
            assert(chunk@.take(len as int) =~= chunk@);
        }
        None
    }
}

} // verus!
