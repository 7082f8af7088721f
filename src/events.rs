//! The events that the reader produces.

use vstd::prelude::*;

verus! {

/// The content of a start, empty or declaration tag: the bytes between `<`
/// and `>` (without a closing `/`), of which the first `name_len` are the name.
#[derive(Debug, Clone, PartialEq, Eq)]
pub struct BytesStart<'a> {
    pub buf: &'a [u8],
    pub name_len: usize,
}

/// The raw content of a text, comment, CDATA, processing instruction or
/// DOCTYPE event.
#[derive(Debug, Clone, PartialEq, Eq)]
pub struct BytesText<'a> {
    pub content: &'a [u8],
}

/// The name of an end tag.
#[derive(Debug, Clone, PartialEq, Eq)]
pub struct BytesEnd {
    pub name: Vec<u8>,
}

/// One structural unit of the document.
#[derive(Debug, Clone, PartialEq, Eq)]
pub enum Event<'a> {
    /// The bytes before the first `<`, possibly empty.
    StartText(BytesText<'a>),
    /// `<?xml ...?>`
    Decl(BytesStart<'a>),
    /// `<!DOCTYPE ...>`
    DocType(BytesText<'a>),
    /// `<?target ...?>`
    PI(BytesText<'a>),
    /// `<!-- ... -->`
    Comment(BytesText<'a>),
    /// `<![CDATA[ ... ]]>`
    CData(BytesText<'a>),
    /// `<name ...>`
    Start(BytesStart<'a>),
    /// `<name .../>`
    Empty(BytesStart<'a>),
    /// `</name>`
    End(BytesEnd),
    /// The bytes between two tags.
    Text(BytesText<'a>),
    /// The end of the input.
    Eof,
}

/// The value of an event: its kind and its bytes (and, for tags, the length
/// of the name).
pub enum EventView {
    StartText(Seq<u8>),
    Decl(Seq<u8>, nat),
    DocType(Seq<u8>),
    PI(Seq<u8>),
    Comment(Seq<u8>),
    CData(Seq<u8>),
    Start(Seq<u8>, nat),
    Empty(Seq<u8>, nat),
    End(Seq<u8>),
    Text(Seq<u8>),
    Eof,
}

impl<'a> View for Event<'a> {
    type V = EventView;

    open spec fn view(&self) -> EventView {
        match self {
            Event::StartText(t) => EventView::StartText(t.content@),
            Event::Decl(s) => EventView::Decl(s.buf@, s.name_len as nat),
            Event::DocType(t) => EventView::DocType(t.content@),
            Event::PI(t) => EventView::PI(t.content@),
            Event::Comment(t) => EventView::Comment(t.content@),
            Event::CData(t) => EventView::CData(t.content@),
            Event::Start(s) => EventView::Start(s.buf@, s.name_len as nat),
            Event::Empty(s) => EventView::Empty(s.buf@, s.name_len as nat),
            Event::End(e) => EventView::End(e.name@),
            Event::Text(t) => EventView::Text(t.content@),
            Event::Eof => EventView::Eof,
        }
    }
}

impl<'a> BytesStart<'a> {
    /// A tag whose content is `buf` and whose name is its first `name_len` bytes.
    pub fn borrowed(buf: &'a [u8], name_len: usize) -> (r: BytesStart<'a>)
        requires
            name_len <= buf@.len(),
        ensures
            r.buf@ == buf@,
            r.name_len == name_len,
    {
        BytesStart { buf, name_len }
    }

    /// A tag without attributes.
    pub fn borrowed_name(name: &'a [u8]) -> (r: BytesStart<'a>)
        ensures
            r.buf@ == name@,
            r.name_len == name@.len(),
    {
        BytesStart { buf: name, name_len: name.len() }
    }

    /// The name of the tag.
    pub fn name(&self) -> (r: &'a [u8])
        requires
            self.name_len <= self.buf@.len(),
        ensures
            r@ == self.buf@.take(self.name_len as int),
    {
        vstd::slice::slice_subrange(self.buf, 0, self.name_len)
    }
}

impl<'a> BytesText<'a> {
    /// Content taken as it stands, with its escapes.
    pub fn from_escaped(content: &'a [u8]) -> (r: BytesText<'a>)
        ensures
            r.content@ == content@,
    {
        BytesText { content }
    }
}

impl BytesEnd {
    /// An end tag of this name.
    pub fn owned(name: Vec<u8>) -> (r: BytesEnd)
        ensures
            r.name@ == name@,
    {
        BytesEnd { name }
    }
}

} // verus!
