//! The reader: the tag-state dispatch over an in-memory input, which it scans
//! without copying.

use vstd::prelude::*;
use vstd::string::StringSliceAdditionalSpecFns;
use crate::builder::{options_from, parser_from, ParserBuilder, ReaderBuilder};
use crate::decl::{lemma_until_len_first, lemma_until_len_none, until_len, ws_len};
use crate::encoding::{
    decoded_text, detect_encoding, detected_encoding, utf8, utf8_name, Decoder, EncodingRef,
};
use crate::error::{EofContext, Error};
use crate::events::{BytesStart, BytesText, Event, EventView};
use crate::parser::{
    close_expanded_empty_spec, ev, name_fits, read_bang_spec, read_end_spec, read_question_mark_spec,
    read_start_spec, DefaultParser, NamespacedParser, TagState,
};
use crate::namespace::{
    popped, pushed, resolution, same_scope, split_name, NamespaceResolver, ResolveResult, Resolved,
};
use crate::scan::{
    bang_closes_at, bang_content_len, bang_open_before, bang_type_of, elem_closes_at,
    elem_open_before, eof_error_of, is_whitespace, is_ws, BangType, ReadElementState, BANG, GT,
    LT, QUESTION, SLASH,
};
use crate::search::find_byte;

verus! {

/// An XML reader over bytes held in memory, with a namespace-unaware
/// (`DefaultParser`) or namespace-aware (`NamespacedParser`) parser. Events
/// borrow from the input.
pub struct Reader<'a, P> {
    /// The input not read yet.
    pub reader: &'a [u8],
    pub parser: P,
}

/// Bytes that a scan up to `b` uses: up to and with the first `b`, or all.
pub open spec fn used_until(s: Seq<u8>, b: u8) -> nat {
    if until_len(s, b) < s.len() {
        until_len(s, b) + 1
    } else {
        s.len()
    }
}

/// `p` with the position moved forward by `n` and the tag state `st`.
pub open spec fn advanced(p: DefaultParser, n: int, st: TagState) -> DefaultParser {
    DefaultParser { buf_position: (p.buf_position + n) as usize, tag_state: st, ..p }
}

/// The first `>` that closes a construct of kind `t` in `s`.
pub open spec fn first_bang_close(t: BangType, s: Seq<u8>) -> int {
    choose|i: int| bang_closes_at(t, s, 0, i) && bang_open_before(t, s, 0, i)
}

/// The first `>` outside quotes in `s`.
pub open spec fn first_elem_close(s: Seq<u8>) -> int {
    choose|i: int|
        elem_closes_at(ReadElementState::Elem, s, i) && elem_open_before(
            ReadElementState::Elem,
            s,
            i,
        )
}

proof fn lemma_first_bang_close(t: BangType, s: Seq<u8>, i: int)
    requires
        bang_closes_at(t, s, 0, i),
        bang_open_before(t, s, 0, i),
    ensures
        first_bang_close(t, s) == i,
{
    let q = first_bang_close(t, s);
    assert(bang_closes_at(t, s, 0, q) && bang_open_before(t, s, 0, q));
    if q < i {
        assert(!bang_closes_at(t, s, 0, q));
    } else if q > i {
        assert(!bang_closes_at(t, s, 0, i));
    }
}

proof fn lemma_first_elem_close(s: Seq<u8>, i: int)
    requires
        elem_closes_at(ReadElementState::Elem, s, i),
        elem_open_before(ReadElementState::Elem, s, i),
    ensures
        first_elem_close(s) == i,
{
    let q = first_elem_close(s);
    assert(elem_closes_at(ReadElementState::Elem, s, q) && elem_open_before(
        ReadElementState::Elem,
        s,
        q,
    ));
    if q < i {
        assert(!elem_closes_at(ReadElementState::Elem, s, q));
    } else if q > i {
        assert(!elem_closes_at(ReadElementState::Elem, s, i));
    }
}

/// What reading a `<!` construct does: from parser `p` (in `Closed`) and
/// input `s` (from `!`) to result `r`, parser `p2` and input `s2`.
pub open spec fn bang_step(
    p: DefaultParser,
    s: Seq<u8>,
    rv: Result<EventView, Error>,
    p2: DefaultParser,
    s2: Seq<u8>,
) -> bool {
    match bang_type_of(
        if s.len() > 1 {
            Some(s[1])
        } else {
            None
        },
    ) {
        Err(e) => rv == Err::<EventView, Error>(e) && p2 == p && s2 == s,
        Ok(t) => if bang_open_before(t, s, 0, s.len() as int) {
            rv == Err::<EventView, Error>(eof_error_of(t)) && p2 == p && s2 == s
        } else {
            let i = first_bang_close(t, s);
            &&& s2 == s.skip(i + 1)
            &&& read_bang_spec(
                advanced(p, i + 1, TagState::Closed),
                t,
                s.take(bang_content_len(t, i)),
                rv,
                p2,
            )
        },
    }
}

/// What reading an end tag (`s` from `/`) or a `<?` construct (`s` from `?`)
/// does: the bytes up to the next `>` go to the parser.
pub open spec fn gt_step(
    p: DefaultParser,
    s: Seq<u8>,
    rv: Result<EventView, Error>,
    p2: DefaultParser,
    s2: Seq<u8>,
) -> bool {
    let n = until_len(s, GT);
    let used = used_until(s, GT);
    let p1 = advanced(p, used as int, TagState::Closed);
    &&& s2 == s.skip(used as int)
    &&& if s[0] == SLASH {
        read_end_spec(p1, s.take(n as int), rv, p2)
    } else {
        read_question_mark_spec(p1, s.take(n as int), rv, p2)
    }
}

/// What reading a start or empty tag does: the bytes up to the first `>`
/// outside quotes go to the parser.
pub open spec fn elem_step_spec(
    p: DefaultParser,
    s: Seq<u8>,
    rv: Result<EventView, Error>,
    p2: DefaultParser,
    s2: Seq<u8>,
) -> bool {
    if elem_open_before(ReadElementState::Elem, s, s.len() as int) {
        rv == Err::<EventView, Error>(Error::UnexpectedEof(EofContext::Element)) && p2 == p
            && s2 == s
    } else {
        let i = first_elem_close(s);
        &&& s2 == s.skip(i + 1)
        &&& read_start_spec(advanced(p, i + 1, TagState::Closed), s.take(i), rv, p2)
    }
}

/// What reading after a `<` does: from parser `p` and input `s` to result `r`,
/// parser `p2` and input `s2`. The first byte picks the construct: `!` a
/// comment, CDATA section or DOCTYPE, `/` an end tag, `?` a declaration or
/// processing instruction, anything else a start or empty tag.
pub open spec fn close_step(
    p: DefaultParser,
    s: Seq<u8>,
    rv: Result<EventView, Error>,
    p2: DefaultParser,
    s2: Seq<u8>,
) -> bool {
    let p0 = DefaultParser { tag_state: TagState::Closed, ..p };
    if s.len() == 0 {
        rv == Ok::<EventView, Error>(EventView::Eof) && p2 == p0 && s2 == s
    } else if s[0] == BANG {
        bang_step(p0, s, rv, p2, s2)
    } else if s[0] == SLASH || s[0] == QUESTION {
        gt_step(p0, s, rv, p2, s2)
    } else {
        elem_step_spec(p0, s, rv, p2, s2)
    }
}

/// A read that is not the last keeps the position in step with the input,
/// consumes input and leaves a state from which the reader can go on.
pub open spec fn progress(
    p: DefaultParser,
    s: Seq<u8>,
    rv: Result<EventView, Error>,
    p2: DefaultParser,
    s2: Seq<u8>,
) -> bool {
    !is_last(rv) ==> {
        &&& p2.buf_position + s2.len() == p.buf_position + s.len()
        &&& s2.len() < s.len()
        &&& p2.tag_state == TagState::Closed || (p2.tag_state == TagState::Empty
            && p2.stack().len() > 0) || (p2.tag_state == TagState::Opened && p2.buf_position >= 1)
    }
}

/// `s` without its trailing white space.
pub open spec fn trim_end_ws(s: Seq<u8>) -> Seq<u8>
    decreases s.len(),
{
    if s.len() > 0 && is_ws(s.last()) {
        trim_end_ws(s.drop_last())
    } else {
        s
    }
}

/// The content of a text event: with `trim_end`, without trailing white
/// space.
pub open spec fn text_content(bytes: Seq<u8>, trim_end: bool) -> Seq<u8> {
    if trim_end {
        trim_end_ws(bytes)
    } else {
        bytes
    }
}

/// What reading text does, from parser `p` and input `s`, which starts with
/// a byte other than `<`: the bytes up to the next `<` make a `StartText` or
/// `Text` event, and the first one may show the encoding. Text that trimming
/// leaves empty makes no event: the read goes on into the construct after
/// it, or gives `Eof` at the end of the input.
pub open spec fn text_step(
    p: DefaultParser,
    s: Seq<u8>,
    first: bool,
    rv: Result<EventView, Error>,
    p2: DefaultParser,
    s2: Seq<u8>,
) -> bool {
    let n = until_len(s, LT);
    let bytes = s.take(n as int);
    let content = text_content(bytes, p.trim_text_end);
    let p3 = advanced(p, used_until(s, LT) as int, p.tag_state);
    if !first && content.len() == 0 {
        if n < s.len() {
            close_step(p3, s.skip(used_until(s, LT) as int), rv, p2, s2)
        } else {
            rv == Ok::<EventView, Error>(EventView::Eof) && p2 == p3 && s2 == s.skip(
                used_until(s, LT) as int,
            )
        }
    } else {
        text_event(p, bytes, content, first, rv, p2) && s2 == s.skip(used_until(s, LT) as int)
    }
}

/// The `StartText` or `Text` event of `content`, read from `bytes`, which
/// the parser `p` consumed (with the `<` after them, if any) to become `p2`.
pub open spec fn text_event(
    p: DefaultParser,
    bytes: Seq<u8>,
    content: Seq<u8>,
    first: bool,
    rv: Result<EventView, Error>,
    p2: DefaultParser,
) -> bool {
    let p3 = DefaultParser { buf_position: p2.buf_position, ..p };
    &&& rv == Ok::<EventView, Error>(
        if first {
            EventView::StartText(content)
        } else {
            EventView::Text(content)
        },
    )
    &&& if first && p.encoding.refinable() && detected_encoding(bytes) is Some {
        &&& p2 == (DefaultParser { encoding: p2.encoding, ..p3 })
        &&& p2.encoding is BomDetected
        &&& p2.encoding.name() == detected_encoding(bytes)->Some_0
    } else {
        p2 == p3
    }
}

/// What reading outside a tag does, from parser `p` and input `s` to result
/// `r`, parser `p2` and input `s2` (`first` for the first read). White space
/// is skipped first when text is trimmed at the start. At the end of the
/// input the result is `Eof`. At a `<`, the first read produces an empty
/// `StartText`, a later one goes on into the construct. Otherwise the bytes
/// up to the next `<` make a `StartText` or `Text` event, and the first one
/// may show the encoding.
pub open spec fn open_step(
    p: DefaultParser,
    s: Seq<u8>,
    first: bool,
    rv: Result<EventView, Error>,
    p2: DefaultParser,
    s2: Seq<u8>,
) -> bool {
    let w: int = if p.trim_text_start {
        ws_len(s) as int
    } else {
        0
    };
    let t = s.skip(w);
    if t.len() == 0 {
        rv == Ok::<EventView, Error>(EventView::Eof) && p2 == advanced(
            p,
            w as int,
            TagState::Opened,
        ) && s2 == t
    } else if t[0] == LT {
        if first {
            rv == Ok::<EventView, Error>(EventView::StartText(Seq::empty())) && p2 == advanced(
                p,
                w + 1,
                TagState::Opened,
            ) && s2 == t.skip(1)
        } else {
            close_step(advanced(p, w + 1, TagState::Opened), t.skip(1), rv, p2, s2)
        }
    } else {
        text_step(advanced(p, w, TagState::Opened), t, first, rv, p2, s2)
    }
}

/// A read that is not the last takes no input back, and a `Start` event
/// takes some.
pub open spec fn consumes(s: Seq<u8>, rv: Result<EventView, Error>, s2: Seq<u8>) -> bool {
    &&& !is_last(rv) ==> s2.len() <= s.len()
    &&& (rv matches Ok(EventView::Start(_, _))) ==> s2.len() < s.len()
}

/// Whether `r` ends the reading: an error or `Eof`.
pub open spec fn is_last(rv: Result<EventView, Error>) -> bool {
    rv is Err || rv == Ok::<EventView, Error>(EventView::Eof)
}

/// The work of one read, chosen by the tag state of `p`, before the state
/// turns to `Exit` on an error or `Eof`.
pub open spec fn dispatch(
    p: DefaultParser,
    s: Seq<u8>,
    rv: Result<EventView, Error>,
    q: DefaultParser,
    s2: Seq<u8>,
) -> bool {
    match p.tag_state {
        TagState::Init => open_step(p, s, true, rv, q, s2),
        TagState::Closed => open_step(p, s, false, rv, q, s2),
        TagState::Opened => close_step(p, s, rv, q, s2),
        TagState::Empty => close_expanded_empty_spec(p, rv, q) && s2 == s,
        TagState::Exit => rv == Ok::<EventView, Error>(EventView::Eof) && q == p && s2 == s,
    }
}

/// One read from parser `p` and input `s`: the dispatch of its tag state,
/// after which an error or `Eof` leaves the parser in `Exit`.
#[verifier::opaque]
pub open spec fn read_step(
    p: DefaultParser,
    s: Seq<u8>,
    rv: Result<EventView, Error>,
    p2: DefaultParser,
    s2: Seq<u8>,
) -> bool {
    exists|q: DefaultParser|
        #[trigger] dispatch(p, s, rv, q, s2) && p2 == if is_last(rv) {
            DefaultParser { tag_state: TagState::Exit, ..q }
        } else {
            q
        }
}

proof fn lemma_trim_end_ws_take(s: Seq<u8>, i: int)
    requires
        0 <= i <= s.len(),
        forall|k: int| i <= k < s.len() ==> is_ws(s[k]),
    ensures
        trim_end_ws(s) == trim_end_ws(s.take(i)),
    decreases s.len() - i,
{
    if i < s.len() {
        assert(s.drop_last() =~= s.drop_last().take(s.len() - 1));
        lemma_trim_end_ws_take(s.drop_last(), i);
        assert(s.drop_last().take(i) =~= s.take(i));
    } else {
        assert(s.take(i) =~= s);
    }
}

/// The content of a text event for `bytes` (see `text_content`).
fn trim_text<'b>(bytes: &'b [u8], trim_end: bool) -> (r: &'b [u8])
    ensures
        r@ == text_content(bytes@, trim_end),
{
    if !trim_end {
        return bytes;
    }
    let mut e = bytes.len();
    while e > 0 && is_whitespace(bytes[e - 1])
        invariant
            e <= bytes@.len(),
            forall|k: int| e <= k < bytes@.len() ==> is_ws(bytes@[k]),
        decreases e,
    {
        e = e - 1;
    }
    proof {
        lemma_trim_end_ws_take(bytes@, e as int);
        if e > 0 {
            assert(bytes@.take(e as int).last() == bytes@[e - 1]);
        } else {
            assert(bytes@.take(0).len() == 0);
        }
    }
    vstd::slice::slice_subrange(bytes, 0, e)
}

impl<'a> Reader<'a, DefaultParser> {
    /// The position fits with the rest of the input, an expanded empty
    /// element has its name on the stack, and a consumed `<` is counted.
    pub open spec fn wf(&self) -> bool {
        &&& self.parser.tag_state != TagState::Exit ==> self.parser.buf_position
            + self.reader@.len() <= usize::MAX
        &&& self.parser.tag_state == TagState::Empty ==> self.parser.stack().len() > 0
        &&& self.parser.tag_state == TagState::Opened ==> self.parser.buf_position >= 1
    }

    /// Twice the input left, and one more in `Empty`: each event that is not
    /// the last makes it smaller.
    pub open spec fn measure(&self) -> nat {
        2 * self.reader@.len() + if self.parser.tag_state == TagState::Empty {
            1nat
        } else {
            0nat
        }
    }

    /// Consumes the input up to and with the first `byte`, or all of it;
    /// returns the bytes before `byte`, or `None` when nothing was left.
    fn read_bytes_until(&mut self, byte: u8) -> (r: Option<&'a [u8]>)
        requires
            old(self).parser.buf_position + old(self).reader@.len() <= usize::MAX,
        ensures
            ({
                let s = old(self).reader@;
                if s.len() == 0 {
                    &&& r is None
                    &&& final(self).reader@ == s
                    &&& final(self).parser == old(self).parser
                } else {
                    &&& r matches Some(b) && b@ == s.take(until_len(s, byte) as int)
                    &&& final(self).reader@ == s.skip(used_until(s, byte) as int)
                    &&& final(self).parser == advanced(
                        old(self).parser,
                        used_until(s, byte) as int,
                        old(self).parser.tag_state,
                    )
                }
            }),
    {
        let len = self.reader.len();
        if len == 0 {
            return None;
        }
        let ghost s = self.reader@;
        match find_byte(byte, self.reader) {
            Some(i) => {
                proof {
                    lemma_until_len_first(s, byte, i as int);
                }
                self.parser.buf_position = self.parser.buf_position + i + 1;
                let bytes = vstd::slice::slice_subrange(self.reader, 0, i);
                self.reader = vstd::slice::slice_subrange(self.reader, i + 1, len);
                Some(bytes)
            },
            None => {
                proof {
                    lemma_until_len_none(s, byte);
                }
                self.parser.buf_position = self.parser.buf_position + len;
                let bytes = self.reader;
                self.reader = vstd::slice::slice_subrange(self.reader, len, len);
                assert(s.take(len as int) =~= s);
                Some(bytes)
            },
        }
    }

    /// Consumes the white space at the start of the input.
    fn skip_whitespace(&mut self)
        requires
            old(self).parser.buf_position + old(self).reader@.len() <= usize::MAX,
        ensures
            ws_len(old(self).reader@) <= old(self).reader@.len(),
            ({
                let s = old(self).reader@;
                &&& final(self).reader@ == s.skip(ws_len(s) as int)
                &&& final(self).parser == advanced(
                    old(self).parser,
                    ws_len(s) as int,
                    old(self).parser.tag_state,
                )
            }),
    {
        let n = crate::decl::skip_ws(self.reader, 0);
        assert(self.reader@.skip(0) =~= self.reader@);
        self.parser.buf_position = self.parser.buf_position + n;
        self.reader = vstd::slice::slice_subrange(self.reader, n, self.reader.len());
    }

    /// Consumes the first byte of the input if it is `byte`.
    fn skip_one(&mut self, byte: u8) -> (r: bool)
        requires
            old(self).parser.buf_position + old(self).reader@.len() <= usize::MAX,
        ensures
            ({
                let s = old(self).reader@;
                if s.len() > 0 && s[0] == byte {
                    &&& r
                    &&& final(self).reader@ == s.skip(1)
                    &&& final(self).parser == advanced(
                        old(self).parser,
                        1,
                        old(self).parser.tag_state,
                    )
                } else {
                    &&& !r
                    &&& final(self).reader@ == s
                    &&& final(self).parser == old(self).parser
                }
            }),
    {
        if self.reader.len() > 0 && self.reader[0] == byte {
            self.reader = vstd::slice::slice_subrange(self.reader, 1, self.reader.len());
            self.parser.buf_position = self.parser.buf_position + 1;
            true
        } else {
            false
        }
    }

    /// The first byte of the input, if any.
    fn peek_one(&self) -> (r: Option<u8>)
        ensures
            r == if self.reader@.len() > 0 {
                Some(self.reader@[0])
            } else {
                None::<u8>
            },
    {
        if self.reader.len() > 0 {
            Some(self.reader[0])
        } else {
            None
        }
    }

    /// Reads a `<!` construct (see `bang_step`).
    #[verifier::rlimit(40)]
    fn read_bang_element(&mut self) -> (r: Result<Event<'a>, Error>)
        requires
            old(self).parser.buf_position + old(self).reader@.len() <= usize::MAX,
            old(self).reader@.len() > 0,
            old(self).parser.tag_state == TagState::Closed,
        ensures
            bang_step(old(self).parser, old(self).reader@, ev(r), final(self).parser, final(self).reader@),
            progress(old(self).parser, old(self).reader@, ev(r), final(self).parser, final(self).reader@),
    {
        let ghost s = self.reader@;
        let len = self.reader.len();
        let next = if len > 1 {
            Some(self.reader[1])
        } else {
            None
        };
        match BangType::new(next) {
            Err(e) => Err(e),
            Ok(t) => match t.parse(self.reader, 0) {
                None => Err(t.to_err()),
                Some((bytes, used)) => {
                    proof {
                        lemma_first_bang_close(t, s, used - 1);
                    }
                    self.parser.buf_position = self.parser.buf_position + used;
                    self.reader = vstd::slice::slice_subrange(self.reader, used, len);
                    self.parser.read_bang(t, bytes)
                },
            },
        }
    }

    /// Reads an end tag or a `<?` construct (see `gt_step`).
    #[verifier::rlimit(40)]
    fn read_until_gt(&mut self) -> (r: Result<Event<'a>, Error>)
        requires
            old(self).parser.buf_position + old(self).reader@.len() <= usize::MAX,
            old(self).reader@.len() > 0,
            old(self).reader@[0] == SLASH || old(self).reader@[0] == QUESTION,
            old(self).parser.tag_state == TagState::Closed,
        ensures
            gt_step(old(self).parser, old(self).reader@, ev(r), final(self).parser, final(self).reader@),
            progress(old(self).parser, old(self).reader@, ev(r), final(self).parser, final(self).reader@),
    {
        let ghost s = self.reader@;
        let slash = self.reader[0] == SLASH;
        proof {
            crate::decl::lemma_until_len_bound(s, GT);
        }
        match self.read_bytes_until(GT) {
            Some(bytes) => {
                if slash {
                    self.parser.read_end(bytes)
                } else {
                    self.parser.read_question_mark(bytes)
                }
            },
            None => Ok(Event::Eof),
        }
    }

    /// Reads a start or empty tag (see `elem_step_spec`).
    #[verifier::rlimit(40)]
    fn read_element(&mut self) -> (r: Result<Event<'a>, Error>)
        requires
            old(self).parser.buf_position + old(self).reader@.len() <= usize::MAX,
            old(self).parser.tag_state == TagState::Closed,
        ensures
            elem_step_spec(old(self).parser, old(self).reader@, ev(r), final(self).parser, final(self).reader@),
            progress(old(self).parser, old(self).reader@, ev(r), final(self).parser, final(self).reader@),
    {
        let ghost s = self.reader@;
        let len = self.reader.len();
        let mut state = ReadElementState::Elem;
        match state.change(self.reader) {
            None => Err(Error::UnexpectedEof(EofContext::Element)),
            Some((bytes, used)) => {
                proof {
                    lemma_first_elem_close(s, used - 1);
                }
                self.parser.buf_position = self.parser.buf_position + used;
                self.reader = vstd::slice::slice_subrange(self.reader, used, len);
                self.parser.read_start(bytes)
            },
        }
    }

    /// Reads the construct after a `<` (see `close_step`).
    #[verifier::rlimit(40)]
    pub fn read_until_close(&mut self) -> (r: Result<Event<'a>, Error>)
        requires
            old(self).parser.buf_position + old(self).reader@.len() <= usize::MAX,
        ensures
            close_step(old(self).parser, old(self).reader@, ev(r), final(self).parser, final(self).reader@),
            progress(old(self).parser, old(self).reader@, ev(r), final(self).parser, final(self).reader@),
    {
        self.parser.tag_state = TagState::Closed;
        match self.peek_one() {
            None => Ok(Event::Eof),
            Some(b) => {
                if b == BANG {
                    self.read_bang_element()
                } else if b == SLASH || b == QUESTION {
                    self.read_until_gt()
                } else {
                    self.read_element()
                }
            },
        }
    }

    /// Reads text up to the next `<` (see `text_step`).
    #[verifier::rlimit(40)]
    fn read_text(&mut self, first: bool) -> (r: Result<Event<'a>, Error>)
        requires
            old(self).parser.buf_position + old(self).reader@.len() <= usize::MAX,
            old(self).reader@.len() > 0,
            old(self).reader@[0] != LT,
            old(self).parser.tag_state == TagState::Opened,
        ensures
            text_step(old(self).parser, old(self).reader@, first, ev(r), final(self).parser, final(self).reader@),
            progress(old(self).parser, old(self).reader@, ev(r), final(self).parser, final(self).reader@),
    {
        let ghost s = self.reader@;
        proof {
            crate::decl::lemma_until_len_bound(s, LT);
        }
        let before = self.parser.buf_position;
        match self.read_bytes_until(LT) {
            Some(bytes) => {
                if first && self.parser.encoding.can_be_refined() {
                    match detect_encoding(bytes) {
                        Some(enc) => {
                            self.parser.encoding = EncodingRef::BomDetected(enc);
                        },
                        None => {},
                    }
                }
                let content = trim_text(bytes, self.parser.trim_text_end);
                if first {
                    Ok(Event::StartText(BytesText { content }))
                } else if content.len() == 0 {
                    if self.parser.buf_position - before > bytes.len() {
                        self.read_until_close()
                    } else {
                        Ok(Event::Eof)
                    }
                } else {
                    Ok(Event::Text(BytesText { content }))
                }
            },
            None => Ok(Event::Eof),
        }
    }

    /// Reads outside a tag (see `open_step`).
    #[verifier::rlimit(40)]
    pub fn read_until_open(&mut self, first: bool) -> (r: Result<Event<'a>, Error>)
        requires
            old(self).parser.buf_position + old(self).reader@.len() <= usize::MAX,
        ensures
            open_step(old(self).parser, old(self).reader@, first, ev(r), final(self).parser, final(self).reader@),
            progress(old(self).parser, old(self).reader@, ev(r), final(self).parser, final(self).reader@),
    {
        let ghost s = self.reader@;
        let ghost p = self.parser;
        self.parser.tag_state = TagState::Opened;
        if self.parser.trim_text_start {
            self.skip_whitespace();
        } else {
            assert(s.skip(0) =~= s);
        }
        let ghost w: int = if p.trim_text_start {
            ws_len(s) as int
        } else {
            0
        };
        assert(self.parser == advanced(p, w, TagState::Opened));
        assert(self.reader@ == s.skip(w));
        if self.reader.len() == 0 {
            return Ok(Event::Eof);
        }
        if self.reader[0] == LT {
            self.skip_one(LT);
            assert(self.parser == advanced(p, w + 1, TagState::Opened));
            assert(s.skip(w).skip(1) =~= s.skip(w + 1));
            if first {
                let empty = vstd::slice::slice_subrange(self.reader, 0, 0);
                assert(empty@ =~= Seq::<u8>::empty());
                return Ok(Event::StartText(BytesText { content: empty }));
            }
            return self.read_until_close();
        }
        self.read_text(first)
    }

    /// Reads the next event (see `read_step`), moving to `Exit` after an
    /// error or `Eof`; the tag state follows `tag_rules`.
    pub fn read_event_impl(&mut self) -> (r: Result<Event<'a>, Error>)
        requires
            old(self).wf(),
        ensures
            final(self).wf(),
            read_step(old(self).parser, old(self).reader@, ev(r), final(self).parser, final(self).reader@),
            tag_rules(old(self).parser, old(self).reader@, ev(r), final(self).parser, final(self).reader@),
            !is_last(ev(r)) ==> final(self).measure() < old(self).measure(),
            consumes(old(self).reader@, ev(r), final(self).reader@),
    {
        let ghost p = self.parser;
        let ghost s = self.reader@;
        let r = self.step();
        proof {
            lemma_tag_rules(p, s, ev(r), self.parser, self.reader@);
        }
        r
    }

    #[verifier::rlimit(40)]
    fn step(&mut self) -> (r: Result<Event<'a>, Error>)
        requires
            old(self).wf(),
        ensures
            final(self).wf(),
            read_step(old(self).parser, old(self).reader@, ev(r), final(self).parser, final(self).reader@),
            !is_last(ev(r)) ==> final(self).measure() < old(self).measure(),
            consumes(old(self).reader@, ev(r), final(self).reader@),
    {
        reveal(read_step);
        let ghost p = self.parser;
        let ghost s = self.reader@;
        let r = match self.parser.tag_state {
            TagState::Init => self.read_until_open(true),
            TagState::Closed => self.read_until_open(false),
            TagState::Opened => self.read_until_close(),
            TagState::Empty => self.parser.close_expanded_empty(),
            TagState::Exit => {
                assert(dispatch(p, s, Ok(EventView::Eof), self.parser, self.reader@));
                return Ok(Event::Eof);
            },
        };
        let ghost q = self.parser;
        assert(dispatch(p, s, ev(r), q, self.reader@));
        let last = match &r {
            Err(_) => true,
            Ok(Event::Eof) => true,
            _ => false,
        };
        if last {
            self.parser.tag_state = TagState::Exit;
        }
        r
    }
}

/// Copies `src` to the end of `buf` and returns the copy.
fn stash<'b>(src: &[u8], buf: &'b mut Vec<u8>) -> (r: &'b [u8])
    ensures
        r@ == src@,
        final(buf)@ == old(buf)@ + src@,
{
    let start = buf.len();
    buf.extend_from_slice(src);
    let b: &'b Vec<u8> = buf;
    let r = vstd::slice::slice_subrange(b.as_slice(), start, b.len());
    assert(r@ =~= src@);
    r
}

/// The bytes of an event that the copying reader puts in its buffer.
pub open spec fn event_bytes(e: EventView) -> Seq<u8> {
    match e {
        EventView::StartText(c) => c,
        EventView::Decl(c, _) => c,
        EventView::DocType(c) => c,
        EventView::PI(c) => c,
        EventView::Comment(c) => c,
        EventView::CData(c) => c,
        EventView::Start(c, _) => c,
        EventView::Empty(c, _) => c,
        EventView::Text(c) => c,
        EventView::End(_) => Seq::empty(),
        EventView::Eof => Seq::empty(),
    }
}

/// The same event, its bytes copied to the end of `buf`.
fn copy_event<'a, 'b>(e: Event<'a>, buf: &'b mut Vec<u8>) -> (r: Event<'b>)
    ensures
        r@ == e@,
        final(buf)@ == old(buf)@ + event_bytes(e@),
{
    match e {
        Event::StartText(t) => Event::StartText(BytesText { content: stash(t.content, buf) }),
        Event::Decl(t) => Event::Decl(BytesStart { buf: stash(t.buf, buf), name_len: t.name_len }),
        Event::DocType(t) => Event::DocType(BytesText { content: stash(t.content, buf) }),
        Event::PI(t) => Event::PI(BytesText { content: stash(t.content, buf) }),
        Event::Comment(t) => Event::Comment(BytesText { content: stash(t.content, buf) }),
        Event::CData(t) => Event::CData(BytesText { content: stash(t.content, buf) }),
        Event::Start(t) => Event::Start(BytesStart { buf: stash(t.buf, buf), name_len: t.name_len }),
        Event::Empty(t) => Event::Empty(BytesStart { buf: stash(t.buf, buf), name_len: t.name_len }),
        Event::Text(t) => Event::Text(BytesText { content: stash(t.content, buf) }),
        Event::End(t) => {
            assert(old(buf)@ + Seq::<u8>::empty() =~= old(buf)@);
            Event::End(t)
        },
        Event::Eof => {
            assert(old(buf)@ + Seq::<u8>::empty() =~= old(buf)@);
            Event::Eof
        },
    }
}

impl<'a> Reader<'a, DefaultParser> {
    /// A reader over `reader` whose parser `parser` has not read yet.
    fn starting(reader: &'a [u8], parser: DefaultParser) -> (r: Reader<'a, DefaultParser>)
        requires
            parser.buf_position == 0,
            parser.tag_state == TagState::Init,
        ensures
            r.wf(),
            r.reader == reader,
            r.parser == parser,
    {
        let n = reader.len();
        assert(n == reader@.len());
        Reader { reader, parser }
    }

    /// A builder for a reader with options.
    pub fn builder() -> (r: ReaderBuilder)
        ensures
            r.parser == ParserBuilder::new_spec(),
    {
        ReaderBuilder::new()
    }

    /// A reader over `reader` with the default options.
    pub fn from_reader(reader: &'a [u8]) -> (r: Reader<'a, DefaultParser>)
        ensures
            r.wf(),
            r.reader@ == reader@,
            parser_from(ParserBuilder::new_spec(), r.parser),
    {
        Self::starting(reader, ParserBuilder::new().into_parser())
    }

    /// A reader over `reader` that goes on from the state of `parser`.
    pub fn from_reader_and_parser(reader: &'a [u8], parser: DefaultParser) -> (r: Reader<'a, DefaultParser>)
        requires
            (Reader { reader, parser }).wf(),
        ensures
            r.wf(),
            r.reader@ == reader@,
            r.parser == parser,
    {
        Reader { reader, parser }
    }

    /// A reader over `reader` with the options of `builder`.
    pub fn from_reader_and_builder(reader: &'a [u8], builder: ParserBuilder) -> (r: Reader<'a, DefaultParser>)
        ensures
            r.wf(),
            r.reader@ == reader@,
            parser_from(builder, r.parser),
    {
        Self::starting(reader, builder.into_parser())
    }

    /// A reader over the bytes of `s`, whose encoding is fixed to UTF-8.
    pub fn from_str(s: &'a str) -> (r: Reader<'a, DefaultParser>)
        ensures
            r.wf(),
            r.reader@ == s.spec_bytes(),
            options_from(ParserBuilder::new_spec(), r.parser),
            r.parser.encoding is Explicit && r.parser.encoding.name() == utf8_name(),
    {
        Self::from_str_builder(s, ParserBuilder::new())
    }

    /// A reader over `s` with the default options.
    pub fn from_bytes(s: &'a [u8]) -> (r: Reader<'a, DefaultParser>)
        ensures
            r.wf(),
            r.reader@ == s@,
            parser_from(ParserBuilder::new_spec(), r.parser),
    {
        Self::from_bytes_builder(s, ParserBuilder::new())
    }

    /// A reader over the bytes of `s` with the options of `builder`; the
    /// encoding is fixed to UTF-8.
    pub fn from_str_builder(s: &'a str, builder: ParserBuilder) -> (r: Reader<'a, DefaultParser>)
        ensures
            r.wf(),
            r.reader@ == s.spec_bytes(),
            options_from(builder, r.parser),
            r.parser.encoding is Explicit && r.parser.encoding.name() == utf8_name(),
    {
        let mut reader = ReaderBuilder { parser: builder }.into_str_reader(s);
        reader.parser.encoding = EncodingRef::Explicit(utf8());
        reader
    }

    /// A reader over `s` with the options of `builder`.
    pub fn from_bytes_builder(s: &'a [u8], builder: ParserBuilder) -> (r: Reader<'a, DefaultParser>)
        ensures
            r.wf(),
            r.reader@ == s@,
            parser_from(builder, r.parser),
    {
        ReaderBuilder { parser: builder }.into_reader(s)
    }

    /// The input not read yet.
    pub fn into_inner(self) -> (r: &'a [u8])
        ensures
            r@ == self.reader@,
    {
        self.reader
    }

    /// The input not read yet.
    pub fn get_ref(&self) -> (r: &&'a [u8])
        ensures
            *r == self.reader,
    {
        &self.reader
    }

    /// The input not read yet, to be replaced; a reader whose input was
    /// replaced reads on from its state over the new input.
    pub fn get_mut(&mut self) -> (r: &mut &'a [u8])
        ensures
            *r == old(self).reader,
            final(self).reader == *final(r),
            final(self).parser == old(self).parser,
    {
        &mut self.reader
    }

    /// The number of bytes consumed; while just after a `<`, the `<` is not
    /// counted.
    pub fn buffer_position(&self) -> (r: usize)
        requires
            self.wf(),
        ensures
            r == if self.parser.tag_state == TagState::Opened {
                self.parser.buf_position - 1
            } else {
                self.parser.buf_position as int
            },
    {
        if self.parser.tag_state == TagState::Opened {
            self.parser.buf_position - 1
        } else {
            self.parser.buf_position
        }
    }

    /// The encoding known so far, and how it was learnt.
    pub fn encoding(&self) -> (r: &EncodingRef)
        ensures
            *r == self.parser.encoding,
    {
        &self.parser.encoding
    }

    /// A decoder for the encoding known so far.
    pub fn decoder(&self) -> (r: Decoder)
        ensures
            r.encoding@ == self.parser.encoding.name(),
    {
        Decoder { encoding: vstd::slice::slice_to_vec(self.parser.encoding.encoding()) }
    }

    /// Reads the next event (see `read_step`); its bytes borrow from the
    /// input. After an error or `Eof`, every read gives `Eof`.
    pub fn read_event(&mut self) -> (r: Result<Event<'a>, Error>)
        requires
            old(self).wf(),
        ensures
            final(self).wf(),
            read_step(old(self).parser, old(self).reader@, ev(r), final(self).parser, final(self).reader@),
            tag_rules(old(self).parser, old(self).reader@, ev(r), final(self).parser, final(self).reader@),
            !is_last(ev(r)) ==> final(self).measure() < old(self).measure(),
            consumes(old(self).reader@, ev(r), final(self).reader@),
    {
        self.read_event_impl()
    }

    /// Reads the next event as `read_event` does, with its bytes copied to
    /// the end of `buf`, from which the event borrows them.
    pub fn read_event_into<'b>(&mut self, buf: &'b mut Vec<u8>) -> (r: Result<Event<'b>, Error>)
        requires
            old(self).wf(),
        ensures
            final(self).wf(),
            read_step(old(self).parser, old(self).reader@, ev(r), final(self).parser, final(self).reader@),
            tag_rules(old(self).parser, old(self).reader@, ev(r), final(self).parser, final(self).reader@),
            !is_last(ev(r)) ==> final(self).measure() < old(self).measure(),
            consumes(old(self).reader@, ev(r), final(self).reader@),
            final(buf)@ == old(buf)@ + match ev(r) {
                Ok(e) => event_bytes(e),
                Err(_) => Seq::<u8>::empty(),
            },
    {
        match self.read_event_impl() {
            Ok(e) => Ok(copy_event(e, buf)),
            Err(e) => {
                assert(old(buf)@ + Seq::<u8>::empty() =~= old(buf)@);
                Err(e)
            },
        }
    }
}

impl ReaderBuilder {
    /// A namespace-aware reader over `reader` with these options.
    pub fn into_reader_namespaced<'a>(self, reader: &'a [u8]) -> (r: Reader<'a, NamespacedParser>)
        ensures
            r.ns_wf(),
            r.reader@ == reader@,
            parser_from(self.parser, r.parser.inner),
            r.parser.ns_resolver.entries() == Seq::<(Seq<u8>, Seq<u8>, int)>::empty(),
            r.parser.ns_resolver.nesting_level == 0,
            !r.parser.pending_pop,
    {
        let inner = self.into_reader(reader);
        Reader { reader: inner.reader, parser: NamespacedParser::from_parser(inner.parser) }
    }

    /// A namespace-aware reader over the bytes of `s` with these options.
    pub fn into_str_reader_namespaced<'a>(self, s: &'a str) -> (r: Reader<'a, NamespacedParser>)
        ensures
            r.ns_wf(),
            r.reader@ == s.spec_bytes(),
            parser_from(self.parser, r.parser.inner),
            r.parser.ns_resolver.entries() == Seq::<(Seq<u8>, Seq<u8>, int)>::empty(),
            r.parser.ns_resolver.nesting_level == 0,
            !r.parser.pending_pop,
    {
        self.into_reader_namespaced(s.as_bytes())
    }

    /// A reader over `reader` with these options.
    pub fn into_reader<'a>(self, reader: &'a [u8]) -> (r: Reader<'a, DefaultParser>)
        ensures
            r.wf(),
            r.reader@ == reader@,
            parser_from(self.parser, r.parser),
    {
        Reader::starting(reader, self.parser.into_parser())
    }

    /// A reader over the bytes of `s` with these options.
    pub fn into_str_reader<'a>(self, s: &'a str) -> (r: Reader<'a, DefaultParser>)
        ensures
            r.wf(),
            r.reader@ == s.spec_bytes(),
            parser_from(self.parser, r.parser),
    {
        Reader::starting(s.as_bytes(), self.parser.into_parser())
    }
}

/// A run of reads: read `i` goes from parser `ps[i]` and input `ss[i]`, with
/// result `evs[i]`, to parser `ps[i + 1]` and input `ss[i + 1]`.
pub open spec fn reads(
    ps: Seq<DefaultParser>,
    ss: Seq<Seq<u8>>,
    evs: Seq<Result<EventView, Error>>,
) -> bool {
    &&& ps.len() == evs.len() + 1
    &&& ss.len() == evs.len() + 1
    &&& forall|i: int|
        0 <= i < evs.len() ==> read_step(ps[i], ss[i], #[trigger] evs[i], ps[i + 1], ss[i + 1])
}

/// A `Start` event whose name is `end`.
pub open spec fn start_named(rv: Result<EventView, Error>, end: Seq<u8>) -> bool {
    rv matches Ok(EventView::Start(b, n)) && n <= b.len() && b.take(n as int) == end
}

/// An `End` event whose name is `end`.
pub open spec fn end_named(rv: Result<EventView, Error>, end: Seq<u8>) -> bool {
    rv == Ok::<EventView, Error>(EventView::End(end))
}

/// How many elements named `end` the events `evs` leave open.
pub open spec fn open_depth(evs: Seq<Result<EventView, Error>>, end: Seq<u8>) -> int
    decreases evs.len(),
{
    if evs.len() == 0 {
        0
    } else {
        open_depth(evs.drop_last(), end) + if start_named(evs.last(), end) {
            1int
        } else if end_named(evs.last(), end) {
            -1int
        } else {
            0int
        }
    }
}

/// None of `evs` ends the reading or closes the element named `end` that
/// was open at their start.
pub open spec fn skipping(evs: Seq<Result<EventView, Error>>, end: Seq<u8>) -> bool {
    forall|i: int|
        0 <= i < evs.len() ==> !is_last(#[trigger] evs[i]) && !(end_named(evs[i], end) && open_depth(
            evs.take(i),
            end,
        ) == 0)
}

/// The error for an input that ends before the end tag named `end`.
pub open spec fn missing_end(err: Error, end: Seq<u8>) -> bool {
    err matches Error::UnexpectedEof(EofContext::EndTag(n)) && n@ == end
}

/// What skipping to the end of the element named `end` does: it reads events
/// until the `End` of that name that closes the element open at the start
/// (`Ok`), an error (which it returns) or `Eof` (an error for want of the
/// end tag).
pub open spec fn skip_to_end(
    p: DefaultParser,
    s: Seq<u8>,
    end: Seq<u8>,
    r: Result<(), Error>,
    p2: DefaultParser,
    s2: Seq<u8>,
) -> bool {
    exists|ps: Seq<DefaultParser>, ss: Seq<Seq<u8>>, evs: Seq<Result<EventView, Error>>|
        #[trigger] reads(ps, ss, evs) && ps[0] == p && ss[0] == s && ps.last() == p2 && ss.last()
            == s2 && evs.len() > 0 && skipping(evs.drop_last(), end) && match r {
            Ok(_) => end_named(evs.last(), end) && open_depth(evs.drop_last(), end) == 0,
            Err(err) => evs.last() == Err::<EventView, Error>(err) || (evs.last()
                == Ok::<EventView, Error>(EventView::Eof) && missing_end(err, end)),
        }
}

proof fn lemma_reads_push(
    ps: Seq<DefaultParser>,
    ss: Seq<Seq<u8>>,
    evs: Seq<Result<EventView, Error>>,
    e: Result<EventView, Error>,
    p2: DefaultParser,
    s2: Seq<u8>,
)
    requires
        reads(ps, ss, evs),
        read_step(ps.last(), ss.last(), e, p2, s2),
    ensures
        reads(ps.push(p2), ss.push(s2), evs.push(e)),
{
    let ps2 = ps.push(p2);
    let ss2 = ss.push(s2);
    let evs2 = evs.push(e);
    assert forall|i: int| 0 <= i < evs2.len() implies read_step(
        ps2[i],
        ss2[i],
        #[trigger] evs2[i],
        ps2[i + 1],
        ss2[i + 1],
    ) by {
        if i < evs.len() {
            assert(evs2[i] == evs[i]);
            assert(read_step(ps[i], ss[i], evs[i], ps[i + 1], ss[i + 1]));
        }
    }
}

proof fn lemma_depth_push(evs: Seq<Result<EventView, Error>>, e: Result<EventView, Error>, end: Seq<u8>)
    ensures
        open_depth(evs.push(e), end) == open_depth(evs, end) + if start_named(e, end) {
            1int
        } else if end_named(e, end) {
            -1int
        } else {
            0int
        },
{
    assert(evs.push(e).drop_last() =~= evs);
}

proof fn lemma_skipping_push(evs: Seq<Result<EventView, Error>>, e: Result<EventView, Error>, end: Seq<u8>)
    requires
        skipping(evs, end),
        !is_last(e),
        !(end_named(e, end) && open_depth(evs, end) == 0),
    ensures
        skipping(evs.push(e), end),
{
    let evs2 = evs.push(e);
    assert forall|i: int| 0 <= i < evs2.len() implies !is_last(#[trigger] evs2[i]) && !(end_named(
        evs2[i],
        end,
    ) && open_depth(evs2.take(i), end) == 0) by {
        if i < evs.len() {
            assert(evs2.take(i) =~= evs.take(i));
            assert(evs2[i] == evs[i]);
        } else {
            assert(evs2.take(i) =~= evs);
        }
    }
}

/// Whether the name of the tag `s` is `end`.
fn has_name(s: &BytesStart, end: &[u8]) -> (r: bool)
    ensures
        r == (s.name_len <= s.buf@.len() && s.buf@.take(s.name_len as int) == end@),
{
    if s.name_len > s.buf.len() {
        return false;
    }
    crate::decl::slices_equal(s.name(), end)
}

impl<'a> Reader<'a, DefaultParser> {
    /// Reads until the end tag named `end` of the element whose start was
    /// read last (see `skip_to_end`), nested elements of the same name
    /// included.
    #[verifier::rlimit(40)]
    pub fn read_to_end(&mut self, end: &[u8]) -> (r: Result<(), Error>)
        requires
            old(self).wf(),
        ensures
            final(self).wf(),
            skip_to_end(old(self).parser, old(self).reader@, end@, r, final(self).parser, final(self).reader@),
    {
        let ghost p0 = self.parser;
        let ghost s0 = self.reader@;
        let ghost mut evs: Seq<Result<EventView, Error>> = Seq::empty();
        let ghost mut ps: Seq<DefaultParser> = seq![self.parser];
        let ghost mut ss: Seq<Seq<u8>> = seq![self.reader@];
        let mut depth: usize = 0;
        let n = self.reader.len();
        loop
            invariant
                n == s0.len(),
                self.wf(),
                reads(ps, ss, evs),
                ps[0] == p0,
                ss[0] == s0,
                p0 == old(self).parser,
                s0 == old(self).reader@,
                ps.last() == self.parser,
                ss.last() == self.reader@,
                skipping(evs, end@),
                depth as int == open_depth(evs, end@),
                depth <= s0.len() - self.reader@.len(),
                self.reader@.len() <= s0.len(),
            decreases self.measure(),
        {
            let r = self.read_event();
            proof {
                lemma_reads_push(ps, ss, evs, ev(r), self.parser, self.reader@);
                lemma_depth_push(evs, ev(r), end@);
            }
            let ghost evs2 = evs.push(ev(r));
            let ghost ps2 = ps.push(self.parser);
            let ghost ss2 = ss.push(self.reader@);
            assert(evs2.drop_last() =~= evs);
            assert(ps2[0] == p0 && ss2[0] == s0);
            let ghost rv = ev(r);
            match r {
                Err(e) => {
                    assert(reads(ps2, ss2, evs2));
                    assert(evs2.last() == Err::<EventView, Error>(e));
                    return Err(e);
                },
                Ok(Event::Start(e)) => {
                    if has_name(&e, end) {
                        depth = depth + 1;
                    }
                },
                Ok(Event::End(e)) => {
                    if crate::decl::slices_equal(e.name.as_slice(), end) {
                        if depth == 0 {
                            assert(reads(ps2, ss2, evs2));
                            return Ok(());
                        }
                        depth = depth - 1;
                    }
                },
                Ok(Event::Eof) => {
                    let name = vstd::slice::slice_to_vec(end);
                    assert(reads(ps2, ss2, evs2));
                    let err = Error::UnexpectedEof(EofContext::EndTag(name));
                    assert(missing_end(err, end@));
                    assert(evs2.last() == Ok::<EventView, Error>(EventView::Eof));
                    return Err(err);
                },
                Ok(_) => {},
            }
            proof {
                lemma_skipping_push(evs, ev(r), end@);
                evs = evs2;
                ps = ps2;
                ss = ss2;
            }
        }
    }
}

/// What reading the text of an element does after its start: it reads one
/// event (`rv`, from `p`, `s` to `pm`, `sm`). Text is decoded as written (its
/// references not unescaped) in the encoding known after it, and the rest of
/// the element skipped; the end
/// tag named `end` gives empty text; `Eof` and any other event are errors.
pub open spec fn text_read(
    pm: DefaultParser,
    sm: Seq<u8>,
    rv: Result<EventView, Error>,
    end: Seq<u8>,
    r: Result<String, Error>,
    p2: DefaultParser,
    s2: Seq<u8>,
) -> bool {
    match rv {
        Err(e) => r == Err::<String, Error>(e) && p2 == pm && s2 == sm,
        Ok(EventView::Text(c)) => exists|r2: Result<(), Error>|
            #[trigger] skip_to_end(pm, sm, end, r2, p2, s2) && match r2 {
                Err(e) => r == Err::<String, Error>(e),
                Ok(_) => match decoded_text(pm.encoding.name(), c) {
                    Some(t) => r matches Ok(x) && x@ == t,
                    None => r == Err::<String, Error>(Error::NonDecodable),
                },
            },
        Ok(EventView::Eof) => r == Err::<String, Error>(Error::UnexpectedEof(EofContext::Text))
            && p2 == pm && s2 == sm,
        Ok(e) => p2 == pm && s2 == sm && if e == EventView::End(end) {
            r matches Ok(x) && x@ == Seq::<char>::empty()
        } else {
            r == Err::<String, Error>(Error::TextNotFound)
        },
    }
}

impl<'a> Reader<'a, DefaultParser> {
    /// Skips to the end tag named `end` as `read_to_end` does; `buf` is left
    /// empty.
    pub fn read_to_end_into(&mut self, end: &[u8], buf: &mut Vec<u8>) -> (r: Result<(), Error>)
        requires
            old(self).wf(),
        ensures
            final(self).wf(),
            skip_to_end(old(self).parser, old(self).reader@, end@, r, final(self).parser, final(self).reader@),
            final(buf)@ == Seq::<u8>::empty(),
    {
        buf.clear();
        self.read_to_end(end)
    }

    /// Reads the text of the element whose start was read last, up to its
    /// end tag named `end` (see `text_read`), with `buf` as scratch space.
    /// The text is decoded as written: entity and character references are
    /// left as they stand, not unescaped.
    #[verifier::rlimit(40)]
    pub fn read_text_into(&mut self, end: &[u8], buf: &mut Vec<u8>) -> (r: Result<String, Error>)
        requires
            old(self).wf(),
        ensures
            final(self).wf(),
            exists|pm: DefaultParser, sm: Seq<u8>, rv: Result<EventView, Error>|
                #[trigger] read_step(old(self).parser, old(self).reader@, rv, pm, sm) && text_read(
                    pm,
                    sm,
                    rv,
                    end@,
                    r,
                    final(self).parser,
                    final(self).reader@,
                ),
    {
        let first = self.read_event_into(buf);
        let ghost pm = self.parser;
        let ghost sm = self.reader@;
        let ghost rv = ev(first);
        match first {
            Err(e) => {
                assert(text_read(pm, sm, rv, end@, Err::<String, Error>(e), self.parser, self.reader@));
                Err(e)
            },
            Ok(Event::Text(t)) => {
                let decoded = self.decoder().decode(t.content);
                match self.read_to_end_into(end, buf) {
                    Err(e) => {
                        assert(skip_to_end(pm, sm, end@, Err::<(), Error>(e), self.parser, self.reader@));
                        Err(e)
                    },
                    Ok(()) => {
                        assert(skip_to_end(pm, sm, end@, Ok::<(), Error>(()), self.parser, self.reader@));
                        decoded
                    },
                }
            },
            Ok(Event::Eof) => Err(Error::UnexpectedEof(EofContext::Text)),
            Ok(Event::End(e)) => {
                if crate::decl::slices_equal(e.name.as_slice(), end) {
                    let empty = String::new();
                    assert(empty@ =~= Seq::<char>::empty());
                    Ok(empty)
                } else {
                    assert(rv != Ok::<EventView, Error>(EventView::End(end@)));
                    Err(Error::TextNotFound)
                }
            },
            Ok(_) => Err(Error::TextNotFound),
        }
    }
}

/// The tag states that a read may lead from and to, by its result: text
/// leaves the reader after a `<`, markup leaves it between tags (or, for the
/// start half of an expanded empty element, in `Empty`), the end half of such
/// an element is read from `Empty`, and an error or `Eof` leads to `Exit`.
pub open spec fn allowed_transition(
    st: TagState,
    expand: bool,
    rv: Result<EventView, Error>,
    st2: TagState,
) -> bool {
    if is_last(rv) {
        st2 == TagState::Exit
    } else {
        match rv->Ok_0 {
            EventView::StartText(_) => st == TagState::Init && st2 == TagState::Opened,
            EventView::Text(_) => st == TagState::Closed && st2 == TagState::Opened,
            EventView::Start(_, _) => (st == TagState::Closed || st == TagState::Opened) && (st2
                == TagState::Closed || (st2 == TagState::Empty && expand)),
            EventView::End(_) => (st == TagState::Closed || st == TagState::Opened || st
                == TagState::Empty) && st2 == TagState::Closed,
            _ => (st == TagState::Closed || st == TagState::Opened) && st2 == TagState::Closed,
        }
    }
}

/// Every read moves the tag state along the transitions of
/// `allowed_transition`.
#[verifier::rlimit(40)]
pub proof fn lemma_tag_state_transitions(
    p: DefaultParser,
    s: Seq<u8>,
    rv: Result<EventView, Error>,
    p2: DefaultParser,
    s2: Seq<u8>,
)
    requires
        read_step(p, s, rv, p2, s2),
    ensures
        allowed_transition(p.tag_state, p.expand_empty_elements, rv, p2.tag_state),
{
    reveal(read_step);
    let q = choose|q: DefaultParser|
        #[trigger] dispatch(p, s, rv, q, s2) && p2 == if is_last(rv) {
            DefaultParser { tag_state: TagState::Exit, ..q }
        } else {
            q
        };
    if !is_last(rv) {
        match p.tag_state {
            TagState::Init => lemma_open_transition(p, s, true, rv, q, s2),
            TagState::Closed => lemma_open_transition(p, s, false, rv, q, s2),
            TagState::Opened => lemma_close_transition(p, s, rv, q, s2),
            _ => {},
        }
    }
}

#[verifier::rlimit(40)]

proof fn lemma_close_transition(
    p: DefaultParser,
    s: Seq<u8>,
    rv: Result<EventView, Error>,
    q: DefaultParser,
    s2: Seq<u8>,
)
    requires
        close_step(p, s, rv, q, s2),
        !is_last(rv),
    ensures
        match rv->Ok_0 {
            EventView::StartText(_) => false,
            EventView::Text(_) => false,
            EventView::Start(_, _) => q.tag_state == TagState::Closed || (q.tag_state
                == TagState::Empty && p.expand_empty_elements),
            _ => q.tag_state == TagState::Closed,
        },
{
}

#[verifier::rlimit(40)]

proof fn lemma_open_transition(
    p: DefaultParser,
    s: Seq<u8>,
    first: bool,
    rv: Result<EventView, Error>,
    q: DefaultParser,
    s2: Seq<u8>,
)
    requires
        open_step(p, s, first, rv, q, s2),
        !is_last(rv),
    ensures
        match rv->Ok_0 {
            EventView::StartText(_) => first && q.tag_state == TagState::Opened,
            EventView::Text(_) => !first && q.tag_state == TagState::Opened,
            EventView::Start(_, _) => !first && (q.tag_state == TagState::Closed || (q.tag_state
                == TagState::Empty && p.expand_empty_elements)),
            _ => !first && q.tag_state == TagState::Closed,
        },
{
    let w: int = if p.trim_text_start {
        ws_len(s) as int
    } else {
        0
    };
    let t = s.skip(w);
    if t.len() > 0 && t[0] == LT && !first {
        lemma_close_transition(advanced(p, w + 1, TagState::Opened), t.skip(1), rv, q, s2);
    } else if t.len() > 0 && !first {
        let n = until_len(t, LT);
        let used = used_until(t, LT) as int;
        if text_content(t.take(n as int), p.trim_text_end).len() == 0 && n < t.len() {
            lemma_close_transition(
                advanced(advanced(p, w, TagState::Opened), used, TagState::Opened),
                t.skip(used),
                rv,
                q,
                s2,
            );
        }
    }
}

/// From `Exit`, a read gives `Eof` and changes nothing.
pub proof fn lemma_exit_is_absorbing(
    p: DefaultParser,
    s: Seq<u8>,
    rv: Result<EventView, Error>,
    p2: DefaultParser,
    s2: Seq<u8>,
)
    requires
        p.tag_state == TagState::Exit,
        read_step(p, s, rv, p2, s2),
    ensures
        rv == Ok::<EventView, Error>(EventView::Eof),
        p2 == p,
        s2 == s,
{
    reveal(read_step);
}

/// A `Text` event is never empty: only `StartText` may be.
#[verifier::rlimit(40)]
pub proof fn lemma_text_never_empty(
    p: DefaultParser,
    s: Seq<u8>,
    rv: Result<EventView, Error>,
    p2: DefaultParser,
    s2: Seq<u8>,
)
    requires
        read_step(p, s, rv, p2, s2),
    ensures
        rv matches Ok(EventView::Text(c)) ==> c.len() > 0,
{
    reveal(read_step);
    if rv matches Ok(EventView::Text(_)) {
        let q = choose|q: DefaultParser|
            #[trigger] dispatch(p, s, rv, q, s2) && p2 == if is_last(rv) {
                DefaultParser { tag_state: TagState::Exit, ..q }
            } else {
                q
            };
        if p.tag_state == TagState::Closed {
            let w: int = if p.trim_text_start {
                ws_len(s) as int
            } else {
                0
            };
            let t = s.skip(w);
            if t.len() > 0 && t[0] != LT {
                crate::decl::lemma_until_len_bound(t, LT);
                let n = until_len(t, LT);
                let used = used_until(t, LT) as int;
                if text_content(t.take(n as int), p.trim_text_end).len() == 0 && n < t.len() {
                    lemma_close_transition(
                        advanced(advanced(p, w, TagState::Opened), used, TagState::Opened),
                        t.skip(used),
                        rv,
                        q,
                        s2,
                    );
                }
            } else if t.len() > 0 {
                lemma_close_transition(advanced(p, w + 1, TagState::Opened), t.skip(1), rv, q, s2);
            }
        } else if p.tag_state == TagState::Init {
            lemma_open_transition(p, s, true, rv, q, s2);
        } else if p.tag_state == TagState::Opened {
            lemma_close_transition(p, s, rv, q, s2);
        }
    }
}

/// Once a read gives an error or `Eof`, every later read gives `Eof` and
/// consumes nothing, whatever input is left.
pub proof fn lemma_eof_after_last(
    ps: Seq<DefaultParser>,
    ss: Seq<Seq<u8>>,
    evs: Seq<Result<EventView, Error>>,
    i: int,
    j: int,
)
    requires
        reads(ps, ss, evs),
        0 <= i < j < evs.len(),
        is_last(evs[i]),
    ensures
        evs[j] == Ok::<EventView, Error>(EventView::Eof),
        ss[j + 1] == ss[i + 1],
    decreases j - i,
{
    assert(read_step(ps[i], ss[i], evs[i], ps[i + 1], ss[i + 1]));
    lemma_last_read_exits(ps[i], ss[i], evs[i], ps[i + 1], ss[i + 1]);
    if j == i + 1 {
        lemma_exit_is_absorbing(ps[j], ss[j], evs[j], ps[j + 1], ss[j + 1]);
    } else {
        lemma_eof_after_last(ps, ss, evs, i, j - 1);
        assert(read_step(ps[j - 1], ss[j - 1], evs[j - 1], ps[j], ss[j]));
        lemma_eof_after_last_state(ps, ss, evs, i, j - 1);
        lemma_exit_is_absorbing(ps[j], ss[j], evs[j], ps[j + 1], ss[j + 1]);
    }
}

proof fn lemma_eof_after_last_state(
    ps: Seq<DefaultParser>,
    ss: Seq<Seq<u8>>,
    evs: Seq<Result<EventView, Error>>,
    i: int,
    j: int,
)
    requires
        reads(ps, ss, evs),
        0 <= i <= j < evs.len(),
        is_last(evs[i]),
    ensures
        ps[j + 1].tag_state == TagState::Exit,
    decreases j - i,
{
    if j == i {
        assert(read_step(ps[i], ss[i], evs[i], ps[i + 1], ss[i + 1]));
        lemma_last_read_exits(ps[i], ss[i], evs[i], ps[i + 1], ss[i + 1]);
    } else {
        lemma_eof_after_last_state(ps, ss, evs, i, j - 1);
        assert(read_step(ps[j], ss[j], evs[j], ps[j + 1], ss[j + 1]));
        lemma_exit_is_absorbing(ps[j], ss[j], evs[j], ps[j + 1], ss[j + 1]);
    }
}

/// A tag event from a read names no more bytes than it holds.
#[verifier::rlimit(40)]
pub proof fn lemma_read_names_fit(
    p: DefaultParser,
    s: Seq<u8>,
    rv: Result<EventView, Error>,
    p2: DefaultParser,
    s2: Seq<u8>,
)
    requires
        read_step(p, s, rv, p2, s2),
    ensures
        name_fits(rv),
{
    reveal(read_step);
    let q = choose|q: DefaultParser|
        #[trigger] dispatch(p, s, rv, q, s2) && p2 == if is_last(rv) {
            DefaultParser { tag_state: TagState::Exit, ..q }
        } else {
            q
        };
    match p.tag_state {
        TagState::Init => lemma_open_names_fit(p, s, true, rv, q, s2),
        TagState::Closed => lemma_open_names_fit(p, s, false, rv, q, s2),
        TagState::Opened => lemma_close_names_fit(p, s, rv, q, s2),
        _ => {},
    }
}

#[verifier::rlimit(40)]

proof fn lemma_close_names_fit(
    p: DefaultParser,
    s: Seq<u8>,
    rv: Result<EventView, Error>,
    q: DefaultParser,
    s2: Seq<u8>,
)
    requires
        close_step(p, s, rv, q, s2),
    ensures
        name_fits(rv),
{
}

#[verifier::rlimit(40)]

proof fn lemma_open_names_fit(
    p: DefaultParser,
    s: Seq<u8>,
    first: bool,
    rv: Result<EventView, Error>,
    q: DefaultParser,
    s2: Seq<u8>,
)
    requires
        open_step(p, s, first, rv, q, s2),
    ensures
        name_fits(rv),
{
    let w: int = if p.trim_text_start {
        ws_len(s) as int
    } else {
        0
    };
    let t = s.skip(w);
    if t.len() > 0 && t[0] == LT && !first {
        lemma_close_names_fit(advanced(p, w + 1, TagState::Opened), t.skip(1), rv, q, s2);
    } else if t.len() > 0 && !first {
        let n = until_len(t, LT);
        let used = used_until(t, LT) as int;
        if text_content(t.take(n as int), p.trim_text_end).len() == 0 && n < t.len() {
            lemma_close_names_fit(
                advanced(advanced(p, w, TagState::Opened), used, TagState::Opened),
                t.skip(used),
                rv,
                q,
                s2,
            );
        }
    }
}

/// An error or `Eof` leaves the reader in `Exit`.
proof fn lemma_last_read_exits(
    p: DefaultParser,
    s: Seq<u8>,
    rv: Result<EventView, Error>,
    p2: DefaultParser,
    s2: Seq<u8>,
)
    requires
        read_step(p, s, rv, p2, s2),
        is_last(rv),
    ensures
        p2.tag_state == TagState::Exit,
{
    reveal(read_step);
}

/// The event of a namespace-aware read.
pub open spec fn ns_ev<'b>(r: Result<(ResolveResult, Event<'b>), Error>) -> Result<EventView, Error> {
    match r {
        Ok((_, e)) => Ok(e@),
        Err(e) => Err(e),
    }
}

/// What a namespace-aware read does to the scope `m` (the scope before the
/// read, after leaving a pending one) given the event `rv`: a start or empty
/// tag brings its declarations into scope, and its name, like that of an
/// end tag, is resolved with the default namespace; the scope of an empty
/// tag or an end tag is left at the next read; other events resolve to
/// `Unbound`.
pub open spec fn ns_effect(
    m: NamespaceResolver,
    rv: Result<EventView, Error>,
    res: Resolved,
    r1: NamespaceResolver,
    pending: bool,
) -> bool {
    match rv {
        Err(_) => same_scope(r1, m) && !pending,
        Ok(EventView::Start(b, n)) => {
            &&& pushed(m, b, n as int, r1)
            &&& res == resolution(r1.entries(), split_name(b.take(n as int)).0, true)
            &&& !pending
        },
        Ok(EventView::Empty(b, n)) => {
            &&& pushed(m, b, n as int, r1)
            &&& res == resolution(r1.entries(), split_name(b.take(n as int)).0, true)
            &&& pending
        },
        Ok(EventView::End(name)) => {
            &&& same_scope(r1, m)
            &&& res == resolution(m.entries(), split_name(name).0, true)
            &&& pending
        },
        Ok(_) => same_scope(r1, m) && res == Resolved::Unbound && !pending,
    }
}

/// The scope at the start of a read: the pending scope left, if any.
pub open spec fn scope_before(p: NamespacedParser, m: NamespaceResolver) -> bool {
    if p.pending_pop {
        popped(p.ns_resolver, m)
    } else {
        same_scope(m, p.ns_resolver)
    }
}

impl<'a> Reader<'a, NamespacedParser> {
    /// The reader without namespaces is well formed, and so is the scope.
    pub open spec fn ns_wf(&self) -> bool {
        &&& (Reader { reader: self.reader, parser: self.parser.inner }).wf()
        &&& self.parser.ns_resolver.wf()
    }

    /// A namespace-aware reader over `reader` with the default options.
    pub fn from_reader_namespaced(reader: &'a [u8]) -> (r: Reader<'a, NamespacedParser>)
        ensures
            r.ns_wf(),
            r.reader@ == reader@,
            parser_from(ParserBuilder::new_spec(), r.parser.inner),
            r.parser.ns_resolver.entries() == Seq::<(Seq<u8>, Seq<u8>, int)>::empty(),
            r.parser.ns_resolver.nesting_level == 0,
            !r.parser.pending_pop,
    {
        let inner = Reader::from_reader(reader);
        Reader { reader: inner.reader, parser: NamespacedParser::from_parser(inner.parser) }
    }

    /// Reads the next event as `read_event_into` does, and resolves the
    /// namespace of its name (see `ns_effect`).
    #[verifier::rlimit(40)]
    pub fn read_namespaced_event<'b>(&mut self, buf: &'b mut Vec<u8>) -> (r: Result<
        (ResolveResult, Event<'b>),
        Error,
    >)
        requires
            old(self).ns_wf(),
        ensures
            final(self).ns_wf(),
            read_step(
                old(self).parser.inner,
                old(self).reader@,
                ns_ev(r),
                final(self).parser.inner,
                final(self).reader@,
            ),
            exists|m: NamespaceResolver|
                #[trigger] scope_before(old(self).parser, m) && ns_effect(
                    m,
                    ns_ev(r),
                    match r {
                        Ok((res, _)) => res@,
                        Err(_) => Resolved::Unbound,
                    },
                    final(self).parser.ns_resolver,
                    final(self).parser.pending_pop,
                ),
    {
        if self.parser.pending_pop {
            self.parser.ns_resolver.pop();
        }
        let ghost m = self.parser.ns_resolver;
        assert(scope_before(old(self).parser, m));
        self.parser.pending_pop = false;
        let mut inner = self.take_inner();
        let event = inner.read_event_into(buf);
        self.put_inner(inner);
        let ghost pm = old(self).parser.inner;
        let ghost sm = old(self).reader@;
        proof {
            lemma_read_names_fit(pm, sm, ev(event), self.parser.inner, self.reader@);
        }
        let ghost rv = ev(event);
        match event {
            Ok(Event::Start(e)) => {
                self.parser.ns_resolver.push(e.buf, e.name_len);
                let res = self.parser.ns_resolver.find(e.name());
                let r = Ok((res, Event::Start(e)));
                assert(ns_ev(r) == rv);
                assert(ns_effect(m, rv, res@, self.parser.ns_resolver, self.parser.pending_pop));
                r
            },
            Ok(Event::Empty(e)) => {
                self.parser.ns_resolver.push(e.buf, e.name_len);
                self.parser.pending_pop = true;
                let res = self.parser.ns_resolver.find(e.name());
                let r = Ok((res, Event::Empty(e)));
                assert(ns_ev(r) == rv);
                assert(ns_effect(m, rv, res@, self.parser.ns_resolver, self.parser.pending_pop));
                r
            },
            Ok(Event::End(e)) => {
                self.parser.pending_pop = true;
                let res = self.parser.ns_resolver.find(e.name.as_slice());
                let r = Ok((res, Event::End(e)));
                assert(ns_ev(r) == rv);
                assert(ns_effect(m, rv, res@, self.parser.ns_resolver, self.parser.pending_pop));
                r
            },
            Ok(e) => {
                let r = Ok((ResolveResult::Unbound, e));
                assert(ns_ev(r) == rv);
                r
            },
            Err(e) => Err(e),
        }
    }

    /// The namespace of the element named `name` in the current scope, and
    /// its local part.
    pub fn event_namespace<'n>(&self, name: &'n [u8]) -> (r: (ResolveResult, &'n [u8]))
        ensures
            r.0@ == resolution(self.parser.ns_resolver.entries(), split_name(name@).0, true),
            r.1@ == split_name(name@).1,
    {
        self.parser.ns_resolver.resolve(name, true)
    }

    /// The namespace of the attribute named `name` in the current scope (no
    /// default namespace applies), and its local part.
    pub fn attribute_namespace<'n>(&self, name: &'n [u8]) -> (r: (ResolveResult, &'n [u8]))
        ensures
            r.0@ == resolution(self.parser.ns_resolver.entries(), split_name(name@).0, false),
            r.1@ == split_name(name@).1,
    {
        self.parser.ns_resolver.resolve(name, false)
    }
}

/// Two reads from the same parser and input give the same event and leave
/// the same input (errors agree as errors): the borrowing `read_event` and
/// the copying `read_event_into` produce the same bytes.
#[verifier::rlimit(40)]
pub proof fn lemma_read_is_deterministic(
    p: DefaultParser,
    s: Seq<u8>,
    rv1: Result<EventView, Error>,
    p1: DefaultParser,
    s1: Seq<u8>,
    rv2: Result<EventView, Error>,
    p2: DefaultParser,
    s2: Seq<u8>,
)
    requires
        read_step(p, s, rv1, p1, s1),
        read_step(p, s, rv2, p2, s2),
    ensures
        rv1 is Ok <==> rv2 is Ok,
        rv1 is Ok ==> rv1 == rv2,
        s1 == s2,
{
    reveal(read_step);
    let q1 = choose|q: DefaultParser|
        #[trigger] dispatch(p, s, rv1, q, s1) && p1 == if is_last(rv1) {
            DefaultParser { tag_state: TagState::Exit, ..q }
        } else {
            q
        };
    let q2 = choose|q: DefaultParser|
        #[trigger] dispatch(p, s, rv2, q, s2) && p2 == if is_last(rv2) {
            DefaultParser { tag_state: TagState::Exit, ..q }
        } else {
            q
        };
    match p.tag_state {
        TagState::Init => lemma_open_deterministic(p, s, true, rv1, q1, s1, rv2, q2, s2),
        TagState::Closed => lemma_open_deterministic(p, s, false, rv1, q1, s1, rv2, q2, s2),
        TagState::Opened => lemma_close_deterministic(p, s, rv1, q1, s1, rv2, q2, s2),
        _ => {},
    }
}

#[verifier::rlimit(40)]

proof fn lemma_close_deterministic(
    p: DefaultParser,
    s: Seq<u8>,
    rv1: Result<EventView, Error>,
    q1: DefaultParser,
    s1: Seq<u8>,
    rv2: Result<EventView, Error>,
    q2: DefaultParser,
    s2: Seq<u8>,
)
    requires
        close_step(p, s, rv1, q1, s1),
        close_step(p, s, rv2, q2, s2),
    ensures
        rv1 is Ok <==> rv2 is Ok,
        rv1 is Ok ==> rv1 == rv2,
        s1 == s2,
{
}

#[verifier::rlimit(40)]

proof fn lemma_open_deterministic(
    p: DefaultParser,
    s: Seq<u8>,
    first: bool,
    rv1: Result<EventView, Error>,
    q1: DefaultParser,
    s1: Seq<u8>,
    rv2: Result<EventView, Error>,
    q2: DefaultParser,
    s2: Seq<u8>,
)
    requires
        open_step(p, s, first, rv1, q1, s1),
        open_step(p, s, first, rv2, q2, s2),
    ensures
        rv1 is Ok <==> rv2 is Ok,
        rv1 is Ok ==> rv1 == rv2,
        s1 == s2,
{
    let w: int = if p.trim_text_start {
        ws_len(s) as int
    } else {
        0
    };
    let t = s.skip(w);
    if t.len() > 0 && t[0] == LT && !first {
        lemma_close_deterministic(
            advanced(p, w + 1, TagState::Opened),
            t.skip(1),
            rv1,
            q1,
            s1,
            rv2,
            q2,
            s2,
        );
    } else if t.len() > 0 && !first {
        let p1 = advanced(p, w, TagState::Opened);
        let n = until_len(t, LT);
        let used = used_until(t, LT) as int;
        if text_content(t.take(n as int), p.trim_text_end).len() == 0 && n < t.len() {
            lemma_close_deterministic(
                advanced(p1, used, TagState::Opened),
                t.skip(used),
                rv1,
                q1,
                s1,
                rv2,
                q2,
                s2,
            );
        }
    }
}


/// The tag-state rules of one read from parser `p` and input `s`: the state
/// moves along `allowed_transition`; it is `Exit` after exactly the reads
/// that give an error or `Eof`; it never returns to `Init`; from `Exit` a
/// read gives `Eof` and changes nothing; from `Empty` it gives an `End`
/// without consuming input.
pub open spec fn tag_rules(
    p: DefaultParser,
    s: Seq<u8>,
    rv: Result<EventView, Error>,
    p2: DefaultParser,
    s2: Seq<u8>,
) -> bool {
    &&& allowed_transition(p.tag_state, p.expand_empty_elements, rv, p2.tag_state)
    &&& (is_last(rv) <==> p2.tag_state == TagState::Exit)
    &&& p2.tag_state != TagState::Init
    &&& p.tag_state == TagState::Exit ==> rv == Ok::<EventView, Error>(EventView::Eof) && p2 == p
        && s2 == s
    &&& p.tag_state == TagState::Empty ==> (rv matches Ok(EventView::End(_))) && p2.buf_position
        == p.buf_position && s2 == s
}

/// Every read keeps the tag-state rules of `tag_rules`.
pub proof fn lemma_tag_rules(
    p: DefaultParser,
    s: Seq<u8>,
    rv: Result<EventView, Error>,
    p2: DefaultParser,
    s2: Seq<u8>,
)
    requires
        read_step(p, s, rv, p2, s2),
    ensures
        tag_rules(p, s, rv, p2, s2),
{
    lemma_tag_state_transitions(p, s, rv, p2, s2);
    if p.tag_state == TagState::Exit {
        lemma_exit_is_absorbing(p, s, rv, p2, s2);
    }
    if p.tag_state == TagState::Empty {
        lemma_empty_read(p, s, rv, p2, s2);
    }
}

proof fn lemma_empty_read(
    p: DefaultParser,
    s: Seq<u8>,
    rv: Result<EventView, Error>,
    p2: DefaultParser,
    s2: Seq<u8>,
)
    requires
        read_step(p, s, rv, p2, s2),
        p.tag_state == TagState::Empty,
    ensures
        rv matches Ok(EventView::End(_)),
        p2.buf_position == p.buf_position,
        s2 == s,
{
    reveal(read_step);
}


impl<'a> Reader<'a, NamespacedParser> {
    /// The namespace-unaware reader over the same input and state; the
    /// parser left behind is a fresh one until `put_inner` brings it back.
    fn take_inner(&mut self) -> (r: Reader<'a, DefaultParser>)
        ensures
            r.reader == old(self).reader,
            r.parser == old(self).parser.inner,
            final(self).reader == old(self).reader,
            final(self).parser.ns_resolver == old(self).parser.ns_resolver,
            final(self).parser.pending_pop == old(self).parser.pending_pop,
    {
        let mut inner = Reader { reader: self.reader, parser: DefaultParser::new() };
        core::mem::swap(&mut inner.parser, &mut self.parser.inner);
        inner
    }

    /// Takes back the input and state of `inner`.
    fn put_inner(&mut self, inner: Reader<'a, DefaultParser>)
        ensures
            final(self).reader == inner.reader,
            final(self).parser.inner == inner.parser,
            final(self).parser.ns_resolver == old(self).parser.ns_resolver,
            final(self).parser.pending_pop == old(self).parser.pending_pop,
    {
        self.reader = inner.reader;
        self.parser.inner = inner.parser;
    }

    /// The number of bytes consumed, as for the namespace-unaware reader.
    pub fn buffer_position(&self) -> (r: usize)
        requires
            self.ns_wf(),
        ensures
            r == if self.parser.inner.tag_state == TagState::Opened {
                self.parser.inner.buf_position - 1
            } else {
                self.parser.inner.buf_position as int
            },
    {
        if self.parser.inner.tag_state == TagState::Opened {
            self.parser.inner.buf_position - 1
        } else {
            self.parser.inner.buf_position
        }
    }

    /// The encoding known so far, and how it was learnt.
    pub fn encoding(&self) -> (r: &EncodingRef)
        ensures
            *r == self.parser.inner.encoding,
    {
        &self.parser.inner.encoding
    }

    /// A decoder for the encoding known so far.
    pub fn decoder(&self) -> (r: Decoder)
        ensures
            r.encoding@ == self.parser.inner.encoding.name(),
    {
        Decoder { encoding: vstd::slice::slice_to_vec(self.parser.inner.encoding.encoding()) }
    }

    /// Reads the next event as the namespace-unaware reader does, leaving
    /// the namespace scope alone.
    pub fn read_event(&mut self) -> (r: Result<Event<'a>, Error>)
        requires
            old(self).ns_wf(),
        ensures
            final(self).ns_wf(),
            read_step(old(self).parser.inner, old(self).reader@, ev(r), final(self).parser.inner, final(self).reader@),
            tag_rules(old(self).parser.inner, old(self).reader@, ev(r), final(self).parser.inner, final(self).reader@),
            final(self).parser.ns_resolver == old(self).parser.ns_resolver,
            final(self).parser.pending_pop == old(self).parser.pending_pop,
    {
        let mut inner = self.take_inner();
        let r = inner.read_event();
        self.put_inner(inner);
        r
    }

    /// Reads the next event as `read_event` does, its bytes copied to the end
    /// of `buf`.
    pub fn read_event_into<'b>(&mut self, buf: &'b mut Vec<u8>) -> (r: Result<Event<'b>, Error>)
        requires
            old(self).ns_wf(),
        ensures
            final(self).ns_wf(),
            read_step(old(self).parser.inner, old(self).reader@, ev(r), final(self).parser.inner, final(self).reader@),
            tag_rules(old(self).parser.inner, old(self).reader@, ev(r), final(self).parser.inner, final(self).reader@),
            final(self).parser.ns_resolver == old(self).parser.ns_resolver,
            final(self).parser.pending_pop == old(self).parser.pending_pop,
            final(buf)@ == old(buf)@ + match ev(r) {
                Ok(e) => event_bytes(e),
                Err(_) => Seq::<u8>::empty(),
            },
    {
        let mut inner = self.take_inner();
        let r = inner.read_event_into(buf);
        self.put_inner(inner);
        r
    }

    /// Skips to the end tag named `end` (see `skip_to_end`), leaving the
    /// namespace scope alone.
    pub fn read_to_end(&mut self, end: &[u8]) -> (r: Result<(), Error>)
        requires
            old(self).ns_wf(),
        ensures
            final(self).ns_wf(),
            skip_to_end(old(self).parser.inner, old(self).reader@, end@, r, final(self).parser.inner, final(self).reader@),
            final(self).parser.ns_resolver == old(self).parser.ns_resolver,
            final(self).parser.pending_pop == old(self).parser.pending_pop,
    {
        let mut inner = self.take_inner();
        let r = inner.read_to_end(end);
        self.put_inner(inner);
        r
    }

    /// Skips to the end tag named `end` as `read_to_end` does; `buf` is left
    /// empty.
    pub fn read_to_end_into(&mut self, end: &[u8], buf: &mut Vec<u8>) -> (r: Result<(), Error>)
        requires
            old(self).ns_wf(),
        ensures
            final(self).ns_wf(),
            skip_to_end(old(self).parser.inner, old(self).reader@, end@, r, final(self).parser.inner, final(self).reader@),
            final(self).parser.ns_resolver == old(self).parser.ns_resolver,
            final(self).parser.pending_pop == old(self).parser.pending_pop,
            final(buf)@ == Seq::<u8>::empty(),
    {
        let mut inner = self.take_inner();
        let r = inner.read_to_end_into(end, buf);
        self.put_inner(inner);
        r
    }

    /// Reads the text of the element whose start was read last (see
    /// `text_read`), decoded as written, leaving the namespace scope alone.
    pub fn read_text_into(&mut self, end: &[u8], buf: &mut Vec<u8>) -> (r: Result<String, Error>)
        requires
            old(self).ns_wf(),
        ensures
            final(self).ns_wf(),
            exists|pm: DefaultParser, sm: Seq<u8>, rv: Result<EventView, Error>|
                #[trigger] read_step(old(self).parser.inner, old(self).reader@, rv, pm, sm)
                    && text_read(pm, sm, rv, end@, r, final(self).parser.inner, final(self).reader@),
            final(self).parser.ns_resolver == old(self).parser.ns_resolver,
            final(self).parser.pending_pop == old(self).parser.pending_pop,
    {
        let mut inner = self.take_inner();
        let r = inner.read_text_into(end, buf);
        self.put_inner(inner);
        r
    }
}

} // verus!
