//! The parser engine: it turns the raw bytes of one scanned construct into an
//! event, and keeps the stack of open elements, the options and the encoding.

use vstd::prelude::*;
use crate::decl::{attr_value, find_attribute, ws_len};
use crate::encoding::{label_encoding, lookup_label, utf8, utf8_name, EncodingRef};
use crate::error::{EofContext, Error};
use crate::events::{BytesEnd, BytesStart, BytesText, Event, EventView};
use crate::scan::{
    eof_error_of, is_whitespace, is_ws, BangType, BANG, DASH, QUESTION, SLASH,
};
use crate::namespace::NamespaceResolver;
use crate::search::find_byte;

verus! {

/// Where the reader stands between two reads.
#[derive(Debug, Clone, Copy, PartialEq, Eq, Structural)]
pub enum TagState {
    /// Nothing read yet.
    Init,
    /// Just after a `<`.
    Opened,
    /// After a tag; text or the next `<` follows.
    Closed,
    /// After the start half of an expanded self-closing tag; its end follows.
    Empty,
    /// After the end of the input or an error: nothing more is read.
    Exit,
}

/// The namespace-aware parser: the namespace-unaware one, the namespace
/// declarations in scope, and whether the scope of the element read last
/// (an empty element or an end tag) must be left before the next read.
#[derive(Debug, Clone)]
pub struct NamespacedParser {
    pub inner: DefaultParser,
    pub ns_resolver: NamespaceResolver,
    pub pending_pop: bool,
}

impl NamespacedParser {
    /// The namespace-aware parser over `parser`, with no declaration in scope.
    pub fn from_parser(parser: DefaultParser) -> (r: NamespacedParser)
        ensures
            r.inner == parser,
            r.ns_resolver.wf(),
            r.ns_resolver.entries() == Seq::<(Seq<u8>, Seq<u8>, int)>::empty(),
            r.ns_resolver.nesting_level == 0,
            !r.pending_pop,
    {
        NamespacedParser { inner: parser, ns_resolver: NamespaceResolver::new(), pending_pop: false }
    }
}

/// The state and options of the namespace-unaware parser.
#[derive(Debug, Clone)]
pub struct DefaultParser {
    /// Bytes consumed so far.
    pub buf_position: usize,
    pub tag_state: TagState,
    pub expand_empty_elements: bool,
    pub trim_text_start: bool,
    pub trim_text_end: bool,
    pub trim_markup_names_in_closing_tags: bool,
    pub check_end_names: bool,
    pub check_comments: bool,
    /// Names of the open elements, innermost last.
    pub opened: Vec<Vec<u8>>,
    pub encoding: EncodingRef,
}

pub open spec fn ascii_lower(b: u8) -> u8 {
    if 0x41 <= b <= 0x5A {
        (b + 0x20) as u8
    } else {
        b
    }
}

/// `s` starts with `p`, ASCII letters compared without case.
pub open spec fn starts_uncased(s: Seq<u8>, p: Seq<u8>) -> bool {
    s.len() >= p.len() && forall|i: int| 0 <= i < p.len() ==> ascii_lower(s[i]) == ascii_lower(p[i])
}

/// `!--`
pub open spec fn comment_prefix() -> Seq<u8> {
    seq![0x21u8, 0x2D, 0x2D]
}

/// `![CDATA[`
pub open spec fn cdata_prefix() -> Seq<u8> {
    seq![0x21u8, 0x5B, 0x43, 0x44, 0x41, 0x54, 0x41, 0x5B]
}

/// `!DOCTYPE`
pub open spec fn doctype_prefix() -> Seq<u8> {
    seq![0x21u8, 0x44, 0x4F, 0x43, 0x54, 0x59, 0x50, 0x45]
}

/// `xml`
pub open spec fn xml_name() -> Seq<u8> {
    seq![0x78u8, 0x6D, 0x6C]
}

/// `encoding`
pub open spec fn encoding_key() -> Seq<u8> {
    seq![0x65u8, 0x6E, 0x63, 0x6F, 0x64, 0x69, 0x6E, 0x67]
}

/// In the comment `buf` (`!--` body `--`), the body holds a `-` at `q` that
/// another `-` follows (possibly the first of the closing pair).
pub open spec fn dash_pair_at(buf: Seq<u8>, q: int) -> bool {
    0 <= q && 3 + q < buf.len() - 2 && buf[3 + q] == DASH && buf[3 + q + 1] == DASH
}

#[verifier::opaque]
pub open spec fn has_dash_pair(buf: Seq<u8>) -> bool {
    exists|q: int| dash_pair_at(buf, q)
}

/// The first `q` of `dash_pair_at`.
#[verifier::opaque]
pub open spec fn first_dash_pair(buf: Seq<u8>) -> int
    recommends
        has_dash_pair(buf),
{
    choose|q: int| dash_pair_at(buf, q) && forall|j: int| 0 <= j < q ==> !dash_pair_at(buf, j)
}

/// The event for the `<!` construct `buf` of kind `t` (the `!` included,
/// the closing `>` not), leaving the check of `--` aside.
pub open spec fn bang_event(t: BangType, buf: Seq<u8>) -> Result<EventView, Error> {
    match t {
        BangType::Comment => if buf.len() >= 5 && buf.take(3) == comment_prefix() {
            Ok(EventView::Comment(buf.subrange(3, buf.len() - 2)))
        } else {
            Err(eof_error_of(t))
        },
        BangType::CData => if starts_uncased(buf, cdata_prefix()) {
            Ok(EventView::CData(buf.skip(8)))
        } else {
            Err(eof_error_of(t))
        },
        BangType::DocType => if starts_uncased(buf, doctype_prefix()) {
            Ok(EventView::DocType(buf.skip(8 + ws_len(buf.skip(8)) as int)))
        } else {
            Err(eof_error_of(t))
        },
    }
}

/// ASCII white space as `u8::is_ascii_whitespace` counts it (form feed too).
pub open spec fn is_ascii_ws(b: u8) -> bool {
    b == 0x20 || b == 0x09 || b == 0x0A || b == 0x0C || b == 0x0D
}

pub open spec fn trim_end_ascii(s: Seq<u8>) -> Seq<u8>
    decreases s.len(),
{
    if s.len() > 0 && is_ascii_ws(s.last()) {
        trim_end_ascii(s.drop_last())
    } else {
        s
    }
}

/// The name in the end tag `buf` (`/` name): trailing white space is dropped
/// when `trim` is set, unless nothing else is left.
pub open spec fn end_name(buf: Seq<u8>, trim: bool) -> Seq<u8> {
    let rest = buf.skip(1);
    if trim && trim_end_ascii(rest).len() > 0 {
        trim_end_ascii(rest)
    } else {
        rest
    }
}

/// Number of leading bytes that are not white space.
pub open spec fn non_ws_len(s: Seq<u8>) -> nat
    decreases s.len(),
{
    if s.len() > 0 && !is_ws(s[0]) {
        1 + non_ws_len(s.skip(1))
    } else {
        0
    }
}

/// Whether the tag content `buf` ends with `/`.
pub open spec fn self_closing(buf: Seq<u8>) -> bool {
    buf.len() > 0 && buf.last() == SLASH
}

/// Length of the name of the self-closing tag `buf`.
pub open spec fn empty_name_len(buf: Seq<u8>) -> nat {
    if non_ws_len(buf) < buf.len() {
        non_ws_len(buf)
    } else {
        (buf.len() - 1) as nat
    }
}

/// Whether `buf` (`?` ... `?`) is an XML declaration.
pub open spec fn is_decl(buf: Seq<u8>) -> bool {
    buf.len() > 5 && buf.subrange(1, 4) == xml_name() && is_ws(buf[4])
}

/// The encoding that the declaration `buf` names, by its canonical name.
pub open spec fn decl_encoding(buf: Seq<u8>) -> Option<Seq<u8>> {
    match attr_value(buf.subrange(1, buf.len() - 1).skip(3), encoding_key()) {
        Some(label) => label_encoding(label),
        None => None,
    }
}

proof fn lemma_non_ws_len_step(s: Seq<u8>, i: int)
    requires
        0 <= i < s.len(),
    ensures
        non_ws_len(s.skip(i)) == if !is_ws(s[i]) {
            1 + non_ws_len(s.skip(i + 1))
        } else {
            0
        },
{
    assert(s.skip(i).skip(1) =~= s.skip(i + 1));
}

proof fn lemma_trim_end_ascii_take(s: Seq<u8>, i: int)
    requires
        0 <= i <= s.len(),
        forall|k: int| i <= k < s.len() ==> is_ascii_ws(s[k]),
    ensures
        trim_end_ascii(s) == trim_end_ascii(s.take(i)),
    decreases s.len() - i,
{
    if i < s.len() {
        assert(s.drop_last() =~= s.drop_last().take(s.len() - 1));
        lemma_trim_end_ascii_take(s.drop_last(), i);
        assert(s.drop_last().take(i) =~= s.take(i));
    } else {
        assert(s.take(i) =~= s);
    }
}

fn is_ascii_whitespace(b: u8) -> (r: bool)
    ensures
        r == is_ascii_ws(b),
{
    b == 0x20 || b == 0x09 || b == 0x0A || b == 0x0C || b == 0x0D
}

fn to_ascii_lower(b: u8) -> (r: u8)
    ensures
        r == ascii_lower(b),
{
    if 0x41 <= b && b <= 0x5A {
        b + 0x20
    } else {
        b
    }
}

/// Whether `buf` starts with `![CDATA[` (`uncased`) or `!DOCTYPE`, without case.
fn starts_with_keyword(buf: &[u8], cdata: bool) -> (r: bool)
    ensures
        r == starts_uncased(buf@, if cdata {
            cdata_prefix()
        } else {
            doctype_prefix()
        }),
{
    let pat: [u8; 8] = if cdata {
        [0x21u8, 0x5B, 0x43, 0x44, 0x41, 0x54, 0x41, 0x5B]
    } else {
        [0x21u8, 0x44, 0x4F, 0x43, 0x54, 0x59, 0x50, 0x45]
    };
    let ghost p = if cdata {
        cdata_prefix()
    } else {
        doctype_prefix()
    };
    assert(pat@ =~= p);
    assert(p.len() == 8);
    if buf.len() < 8 {
        return false;
    }
    let mut i: usize = 0;
    while i < 8
        invariant
            buf@.len() >= 8,
            pat@ == p,
            p == if cdata {
                cdata_prefix()
            } else {
                doctype_prefix()
            },
            p.len() == 8,
            i <= 8,
            forall|k: int| 0 <= k < i ==> ascii_lower(buf@[k]) == ascii_lower(p[k]),
        decreases 8 - i,
    {
        if to_ascii_lower(buf[i]) != to_ascii_lower(pat[i]) {
            assert(pat@[i as int] == p[i as int]);
            return false;
        }
        i = i + 1;
    }
    true
}

/// The index of the first white-space byte of `buf`, or its length.
fn first_whitespace(buf: &[u8]) -> (r: usize)
    ensures
        r == non_ws_len(buf@),
        r <= buf@.len(),
{
    let mut j: usize = 0;
    assert(buf@.skip(0) =~= buf@);
    while j < buf.len() && !is_whitespace(buf[j])
        invariant
            j <= buf@.len(),
            non_ws_len(buf@) == j + non_ws_len(buf@.skip(j as int)),
        decreases buf@.len() - j,
    {
        proof {
            lemma_non_ws_len_step(buf@, j as int);
        }
        j = j + 1;
    }
    proof {
        if j < buf@.len() {
            lemma_non_ws_len_step(buf@, j as int);
        } else {
            assert(buf@.skip(j as int).len() == 0);
        }
    }
    j
}

/// The offset in the body of the comment `buf` of its first doubled dash,
/// if there is one.
fn find_dash_pair(buf: &[u8]) -> (r: Option<usize>)
    requires
        buf@.len() >= 5,
    ensures
        match r {
            Some(k) => has_dash_pair(buf@) && k == first_dash_pair(buf@) && 3 + k + 2 < buf@.len(),
            None => !has_dash_pair(buf@),
        },
{
    let len = buf.len();
    let body = vstd::slice::slice_subrange(buf, 3, len - 2);
    let blen = body.len();
    let mut pos: usize = 0;
    while pos < blen
        invariant
            blen == body@.len(),
            body@ == buf@.subrange(3, len - 2),
            len == buf@.len(),
            len >= 5,
            pos <= blen,
            forall|j: int| 0 <= j < pos ==> !dash_pair_at(buf@, j),
        decreases blen - pos,
    {
        let rest = vstd::slice::slice_subrange(body, pos, blen);
        match find_byte(DASH, rest) {
            None => {
                assert forall|j: int| 0 <= j implies !dash_pair_at(buf@, j) by {
                    if pos <= j < blen {
                        assert(rest@[j - pos] == buf@[3 + j]);
                    }
                }
                proof {
                    reveal(has_dash_pair);
                }
                return None;
            },
            Some(k) => {
                let p = pos + k;
                assert(rest@[k as int] == body@[p as int]);
                assert forall|j: int| pos <= j < p implies body@[j] != DASH by {
                    assert(rest@[j - pos] == body@[j]);
                }
                assert forall|j: int| 0 <= j < p implies !dash_pair_at(buf@, j) by {
                    if pos <= j {
                        assert(body@[j] == buf@[3 + j]);
                    }
                }
                if buf[3 + p + 1] == DASH {
                    assert(dash_pair_at(buf@, p as int));
                    assert(first_dash_pair(buf@) == p) by {
                        reveal(first_dash_pair);
                        assert(dash_pair_at(buf@, p as int) && forall|j: int|
                            0 <= j < p ==> !dash_pair_at(buf@, j));
                        let q = first_dash_pair(buf@);
                        assert(dash_pair_at(buf@, q) && forall|j: int|
                            0 <= j < q ==> !dash_pair_at(buf@, j));
                        if q < p {
                        } else if q > p {
                        }
                    }
                    proof {
                        reveal(has_dash_pair);
                    }
                    return Some(p);
                }
                pos = p + 1;
            },
        }
    }
    assert forall|j: int| 0 <= j implies !dash_pair_at(buf@, j) by {}
    proof {
        reveal(has_dash_pair);
    }
    None
}

impl DefaultParser {
    /// The names of the open elements, innermost last.
    pub open spec fn stack(&self) -> Seq<Seq<u8>> {
        self.opened@.map_values(|v: Vec<u8>| v@)
    }

    /// The parser with every option at its default: no expansion of empty
    /// elements, no trimming of text, trimmed names in end tags, checked end
    /// names, unchecked comments; UTF-8 assumed.
    pub fn new() -> (r: DefaultParser)
        ensures
            r.buf_position == 0,
            r.tag_state == TagState::Init,
            !r.expand_empty_elements,
            !r.trim_text_start,
            !r.trim_text_end,
            r.trim_markup_names_in_closing_tags,
            r.check_end_names,
            !r.check_comments,
            r.stack() == Seq::<Seq<u8>>::empty(),
            r.encoding is Implicit && r.encoding.name() == utf8_name(),
    {
        let r = DefaultParser {
            buf_position: 0,
            tag_state: TagState::Init,
            expand_empty_elements: false,
            trim_text_start: false,
            trim_text_end: false,
            trim_markup_names_in_closing_tags: true,
            check_end_names: true,
            check_comments: false,
            opened: Vec::new(),
            encoding: EncodingRef::Implicit(utf8()),
        };
        assert(r.stack() =~= Seq::<Seq<u8>>::empty());
        r
    }

    /// Turns the `<!` construct `buf` of kind `t` (from `!` up to the closing
    /// `>`, which is left out, both already consumed) into an event. With
    /// `check_comments`, a comment whose body holds `--` fails, and the
    /// position moves back to the first `-` of that `--`.
    pub fn read_bang<'b>(&mut self, t: BangType, buf: &'b [u8]) -> (r: Result<Event<'b>, Error>)
        requires
            t == BangType::Comment ==> buf@.len() >= 5,
            t == BangType::Comment ==> old(self).buf_position >= buf@.len() + 1,
        ensures
            read_bang_spec(*old(self), t, buf@, ev(r), *final(self)),
    {
        match t {
            BangType::Comment => match comment_event(self.check_comments, buf) {
                Ok(e) => Ok(e),
                Err(Some(k)) => {
                    assert(comment_has_dashes(self.check_comments, buf@));
                    assert(k == first_dash_pair(buf@) && k + 5 < buf@.len());
                    self.buf_position = self.buf_position - buf.len() + 2 + k;
                    let tok = vec![DASH, DASH];
                    assert(tok@ =~= seq![DASH, DASH]);
                    Err(Error::UnexpectedToken(tok))
                },
                Err(None) => Err(t.to_err()),
            },
            BangType::CData => cdata_event(buf),
            BangType::DocType => doctype_event(buf),
        }
    }

    /// Whether `self` and `o` agree on everything but the position and the
    /// stack of open elements.
    pub open spec fn same_settings(&self, o: DefaultParser) -> bool {
        &&& self.tag_state == o.tag_state
        &&& same_options(*self, o)
        &&& self.encoding == o.encoding
    }

    /// Turns the end tag `buf` (from `/` up to the closing `>`, which is left
    /// out) into an event. With `check_end_names`, the innermost open element
    /// is closed and must have this name; a mismatch, or no open element,
    /// fails and moves the position back to the start of the tag.
    pub fn read_end<'b>(&mut self, buf: &'b [u8]) -> (r: Result<Event<'b>, Error>)
        requires
            buf@.len() >= 1,
            old(self).buf_position >= buf@.len(),
        ensures
            read_end_spec(*old(self), buf@, ev(r), *final(self)),
    {
        let len = buf.len();
        let rest = vstd::slice::slice_subrange(buf, 1, len);
        let name = if self.trim_markup_names_in_closing_tags {
            let mut e = rest.len();
            while e > 0 && is_ascii_whitespace(rest[e - 1])
                invariant
                    e <= rest@.len(),
                    forall|k: int| e <= k < rest@.len() ==> is_ascii_ws(rest@[k]),
                decreases e,
            {
                e = e - 1;
            }
            proof {
                lemma_trim_end_ascii_take(rest@, e as int);
                if e > 0 {
                    assert(rest@.take(e as int).last() == rest@[e - 1]);
                } else {
                    assert(rest@.take(0).len() == 0);
                }
            }
            if e > 0 {
                vstd::slice::slice_subrange(rest, 0, e)
            } else {
                rest
            }
        } else {
            rest
        };
        assert(name@ == end_name(buf@, self.trim_markup_names_in_closing_tags));
        if self.check_end_names {
            let ghost st = self.stack();
            match self.opened.pop() {
                Some(expected) => {
                    assert(self.stack() =~= st.drop_last());
                    if crate::decl::slices_equal(name, expected.as_slice()) {
                        Ok(Event::End(BytesEnd { name: vstd::slice::slice_to_vec(name) }))
                    } else {
                        self.buf_position = self.buf_position - len;
                        Err(
                            Error::EndEventMismatch {
                                expected,
                                found: vstd::slice::slice_to_vec(name),
                            },
                        )
                    }
                },
                None => {
                    self.buf_position = self.buf_position - len;
                    Err(
                        Error::EndEventMismatch {
                            expected: Vec::new(),
                            found: vstd::slice::slice_to_vec(rest),
                        },
                    )
                },
            }
        } else {
            Ok(Event::End(BytesEnd { name: vstd::slice::slice_to_vec(name) }))
        }
    }

    /// Turns the construct `buf` (from `?` up to the closing `>`, which is
    /// left out) into an XML declaration or a processing instruction. A
    /// declaration whose `encoding` names a known encoding sets it, while the
    /// encoding can still be refined. Content that does not end in `?` fails
    /// and moves the position back to the start of the construct.
    pub fn read_question_mark<'b>(&mut self, buf: &'b [u8]) -> (r: Result<Event<'b>, Error>)
        requires
            old(self).buf_position >= buf@.len(),
        ensures
            read_question_mark_spec(*old(self), buf@, ev(r), *final(self)),
    {
        let len = buf.len();
        if len > 2 && buf[len - 1] == QUESTION {
            let content = vstd::slice::slice_subrange(buf, 1, len - 1);
            if len > 5 && buf[1] == 0x78 && buf[2] == 0x6D && buf[3] == 0x6C && is_whitespace(
                buf[4],
            ) {
                assert(buf@.subrange(1, 4) =~= xml_name());
                if self.encoding.can_be_refined() {
                    let attrs = vstd::slice::slice_subrange(content, 3, content.len());
                    assert(attrs@ =~= buf@.subrange(1, len - 1).skip(3));
                    let key = vec![0x65u8, 0x6E, 0x63, 0x6F, 0x64, 0x69, 0x6E, 0x67];
                    assert(key@ =~= encoding_key());
                    match find_attribute(attrs, key.as_slice()) {
                        Some(label) => match lookup_label(label) {
                            Some(enc) => {
                                self.encoding = EncodingRef::XmlDetected(enc);
                            },
                            None => {},
                        },
                        None => {},
                    }
                }
                Ok(Event::Decl(BytesStart { buf: content, name_len: 3 }))
            } else {
                proof {
                    if is_decl(buf@) {
                        assert(buf@[1] == buf@.subrange(1, 4)[0] && buf@[2] == buf@.subrange(1, 4)[1]
                            && buf@[3] == buf@.subrange(1, 4)[2]);
                    }
                }
                Ok(Event::PI(BytesText { content }))
            }
        } else {
            self.buf_position = self.buf_position - len;
            Err(Error::UnexpectedEof(EofContext::XmlDecl))
        }
    }

    /// Turns the tag `buf` (between `<` and `>`) into a start or empty
    /// event. A tag that ends in `/` is an `Empty` event, or, when empty
    /// elements are expanded, a `Start` event whose name goes on the stack and
    /// whose `End` the next read produces. Any other tag is a `Start` event,
    /// whose name goes on the stack when end names are checked.
    pub fn read_start<'b>(&mut self, buf: &'b [u8]) -> (r: Result<Event<'b>, Error>)
        ensures
            read_start_spec(*old(self), buf@, ev(r), *final(self)),
    {
        let len = buf.len();
        let name_end = first_whitespace(buf);
        let ghost st = self.stack();
        if len > 0 && buf[len - 1] == SLASH {
            let end = if name_end < len {
                name_end
            } else {
                len - 1
            };
            let content = vstd::slice::slice_subrange(buf, 0, len - 1);
            if self.expand_empty_elements {
                self.tag_state = TagState::Empty;
                let name = vstd::slice::slice_to_vec(vstd::slice::slice_subrange(buf, 0, end));
                self.opened.push(name);
                assert(self.stack() =~= st.push(buf@.take(end as int)));
                Ok(Event::Start(BytesStart { buf: content, name_len: end }))
            } else {
                Ok(Event::Empty(BytesStart { buf: content, name_len: end }))
            }
        } else {
            if self.check_end_names {
                let name = vstd::slice::slice_to_vec(vstd::slice::slice_subrange(buf, 0, name_end));
                self.opened.push(name);
                assert(self.stack() =~= st.push(buf@.take(name_end as int)));
            }
            Ok(Event::Start(BytesStart { buf, name_len: name_end }))
        }
    }

    /// Produces the `End` event of the expanded self-closing tag read last,
    /// taking its name off the stack.
    pub fn close_expanded_empty(&mut self) -> (r: Result<Event<'static>, Error>)
        requires
            old(self).stack().len() > 0,
        ensures
            close_expanded_empty_spec(*old(self), ev(r), *final(self)),
    {
        self.tag_state = TagState::Closed;
        let ghost st = self.stack();
        let name = self.opened.pop().unwrap();
        assert(self.stack() =~= st.drop_last());
        Ok(Event::End(BytesEnd { name }))
    }
}

/// The value of a result of the parser.
pub open spec fn ev<'b>(r: Result<Event<'b>, Error>) -> Result<EventView, Error> {
    match r {
        Ok(e) => Ok(e@),
        Err(e) => Err(e),
    }
}

/// `a` and `b` have the same options.
pub open spec fn same_options(a: DefaultParser, b: DefaultParser) -> bool {
    &&& a.expand_empty_elements == b.expand_empty_elements
    &&& a.trim_text_start == b.trim_text_start
    &&& a.trim_text_end == b.trim_text_end
    &&& a.trim_markup_names_in_closing_tags == b.trim_markup_names_in_closing_tags
    &&& a.check_end_names == b.check_end_names
    &&& a.check_comments == b.check_comments
}

/// What `read_bang` does with the `<!` construct `buf` of kind `t`: from
/// parser `old` to result `rv` and parser `new`.
pub open spec fn read_bang_spec(
    old: DefaultParser,
    t: BangType,
    buf: Seq<u8>,
    rv: Result<EventView, Error>,
    new: DefaultParser,
) -> bool {
    if t == BangType::Comment && comment_has_dashes(old.check_comments, buf) {
        &&& rv matches Err(Error::UnexpectedToken(tok)) && tok@ == seq![DASH, DASH]
        &&& new.buf_position == old.buf_position - buf.len() + 2 + first_dash_pair(buf)
        &&& new == (DefaultParser { buf_position: new.buf_position, ..old })
    } else {
        &&& new == old
        &&& match bang_event(t, buf) {
            Ok(v) => rv == Ok::<EventView, Error>(v),
            Err(err) => rv == Err::<EventView, Error>(err),
        }
    }
}

/// What `read_end` does with the end tag `buf`.
pub open spec fn read_end_spec(
    old: DefaultParser,
    buf: Seq<u8>,
    rv: Result<EventView, Error>,
    new: DefaultParser,
) -> bool {
    let name = end_name(buf, old.trim_markup_names_in_closing_tags);
    let st = old.stack();
    &&& new.same_settings(old)
    &&& if !old.check_end_names {
        &&& rv == Ok::<EventView, Error>(EventView::End(name))
        &&& new.stack() == st
        &&& new.buf_position == old.buf_position
    } else if st.len() == 0 {
        &&& rv matches Err(Error::EndEventMismatch { expected, found }) && expected@
            == Seq::<u8>::empty() && found@ == buf.skip(1)
        &&& new.stack() == st
        &&& new.buf_position == old.buf_position - buf.len()
    } else if st.last() == name {
        &&& rv == Ok::<EventView, Error>(EventView::End(name))
        &&& new.stack() == st.drop_last()
        &&& new.buf_position == old.buf_position
    } else {
        &&& rv matches Err(Error::EndEventMismatch { expected, found }) && expected@
            == st.last() && found@ == name
        &&& new.stack() == st.drop_last()
        &&& new.buf_position == old.buf_position - buf.len()
    }
}

/// A tag event names no more bytes than it holds.
pub open spec fn name_fits(rv: Result<EventView, Error>) -> bool {
    match rv {
        Ok(EventView::Start(b, n)) => n <= b.len(),
        Ok(EventView::Empty(b, n)) => n <= b.len(),
        Ok(EventView::Decl(b, n)) => n <= b.len(),
        _ => true,
    }
}

/// What `read_question_mark` does with `buf`.
pub open spec fn read_question_mark_spec(
    old: DefaultParser,
    buf: Seq<u8>,
    rv: Result<EventView, Error>,
    new: DefaultParser,
) -> bool {
    let len = buf.len();
    &&& name_fits(rv)
    &&& new.tag_state == old.tag_state
    &&& new.stack() == old.stack()
    &&& same_options(new, old)
    &&& if len > 2 && buf.last() == QUESTION {
        &&& new.buf_position == old.buf_position
        &&& if is_decl(buf) {
            &&& rv == Ok::<EventView, Error>(EventView::Decl(buf.subrange(1, len - 1), 3))
            &&& if old.encoding.refinable() && decl_encoding(buf) is Some {
                &&& new.encoding is XmlDetected
                &&& new.encoding.name() == decl_encoding(buf)->Some_0
            } else {
                new.encoding == old.encoding
            }
        } else {
            &&& rv == Ok::<EventView, Error>(EventView::PI(buf.subrange(1, len - 1)))
            &&& new.encoding == old.encoding
        }
    } else {
        &&& rv == Err::<EventView, Error>(Error::UnexpectedEof(EofContext::XmlDecl))
        &&& new.buf_position == old.buf_position - len
        &&& new.encoding == old.encoding
    }
}

/// What `read_start` does with the tag `buf`.
pub open spec fn read_start_spec(
    old: DefaultParser,
    buf: Seq<u8>,
    rv: Result<EventView, Error>,
    new: DefaultParser,
) -> bool {
    let len = buf.len();
    let st = old.stack();
    &&& name_fits(rv)
    &&& new.buf_position == old.buf_position
    &&& new.encoding == old.encoding
    &&& same_options(new, old)
    &&& if self_closing(buf) {
        let n = empty_name_len(buf);
        if old.expand_empty_elements {
            &&& rv == Ok::<EventView, Error>(EventView::Start(buf.take(len - 1), n))
            &&& new.tag_state == TagState::Empty
            &&& new.stack() == st.push(buf.take(n as int))
        } else {
            &&& rv == Ok::<EventView, Error>(EventView::Empty(buf.take(len - 1), n))
            &&& new.tag_state == old.tag_state
            &&& new.stack() == st
        }
    } else {
        let n = non_ws_len(buf);
        &&& rv == Ok::<EventView, Error>(EventView::Start(buf, n))
        &&& new.tag_state == old.tag_state
        &&& new.stack() == if old.check_end_names {
            st.push(buf.take(n as int))
        } else {
            st
        }
    }
}

/// What `close_expanded_empty` does.
pub open spec fn close_expanded_empty_spec(
    old: DefaultParser,
    rv: Result<EventView, Error>,
    new: DefaultParser,
) -> bool {
    &&& rv == Ok::<EventView, Error>(EventView::End(old.stack().last()))
    &&& new.tag_state == TagState::Closed
    &&& new.stack() == old.stack().drop_last()
    &&& new.buf_position == old.buf_position
    &&& new.encoding == old.encoding
    &&& same_options(new, old)
}

/// Whether the comment `buf` fails the check of `--`.
pub open spec fn comment_has_dashes(check: bool, buf: Seq<u8>) -> bool {
    check && buf.take(3) == comment_prefix() && has_dash_pair(buf)
}

/// The comment event, or, where the check fails, the offset of the `--` in
/// the body.
fn comment_event<'b>(check: bool, buf: &'b [u8]) -> (r: Result<Event<'b>, Option<usize>>)
    requires
        buf@.len() >= 5,
    ensures
        comment_has_dashes(check, buf@) ==> (r matches Err(Some(k)) && k == first_dash_pair(buf@)
            && k + 5 < buf@.len()),
        !comment_has_dashes(check, buf@) ==> match bang_event(BangType::Comment, buf@) {
            Ok(v) => r matches Ok(e) && e@ == v,
            Err(_) => r matches Err(None),
        },
{
    let len = buf.len();
    if buf[0] == BANG && buf[1] == DASH && buf[2] == DASH {
        assert(buf@.take(3) =~= comment_prefix());
        if check {
            match find_dash_pair(buf) {
                Some(k) => {
                    return Err(Some(k));
                },
                None => {},
            }
        }
        let content = vstd::slice::slice_subrange(buf, 3, len - 2);
        Ok(Event::Comment(BytesText { content }))
    } else {
        proof {
            if buf@.take(3) == comment_prefix() {
                assert(buf@[0] == buf@.take(3)[0] && buf@[1] == buf@.take(3)[1] && buf@[2]
                    == buf@.take(3)[2]);
            }
        }
        Err(None)
    }
}

fn cdata_event<'b>(buf: &'b [u8]) -> (r: Result<Event<'b>, Error>)
    ensures
        match bang_event(BangType::CData, buf@) {
            Ok(v) => r matches Ok(e) && e@ == v,
            Err(err) => r == Err::<Event<'b>, Error>(err),
        },
{
    if starts_with_keyword(buf, true) {
        let content = vstd::slice::slice_subrange(buf, 8, buf.len());
        Ok(Event::CData(BytesText { content }))
    } else {
        Err(BangType::CData.to_err())
    }
}

fn doctype_event<'b>(buf: &'b [u8]) -> (r: Result<Event<'b>, Error>)
    ensures
        match bang_event(BangType::DocType, buf@) {
            Ok(v) => r matches Ok(e) && e@ == v,
            Err(err) => r == Err::<Event<'b>, Error>(err),
        },
{
    let len = buf.len();
    if starts_with_keyword(buf, false) {
        let rest = vstd::slice::slice_subrange(buf, 8, len);
        let start = crate::decl::skip_ws(rest, 0);
        assert(rest@.skip(0) =~= rest@);
        assert(rest@ =~= buf@.skip(8));
        let content = vstd::slice::slice_subrange(buf, 8 + start, len);
        assert(buf@.skip(8 + start) =~= content@);
        Ok(Event::DocType(BytesText { content }))
    } else {
        Err(BangType::DocType.to_err())
    }
}

} // verus!
