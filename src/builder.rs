//! Builders that fix the options of a parser or a reader.

use vstd::prelude::*;
use crate::encoding::{utf8, utf8_name, EncodingRef};
use crate::parser::{DefaultParser, NamespacedParser, TagState};

verus! {

/// The options of a parser.
#[derive(Debug, Clone, Copy, PartialEq, Eq, Structural)]
pub struct ParserBuilder {
    pub expand_empty_elements: bool,
    pub trim_text_start: bool,
    pub trim_text_end: bool,
    pub trim_markup_names_in_closing_tags: bool,
    pub check_end_names: bool,
    pub check_comments: bool,
}

/// A parser in its first state with the options of `b`, assuming UTF-8.
pub open spec fn parser_from(b: ParserBuilder, p: DefaultParser) -> bool {
    &&& options_from(b, p)
    &&& p.encoding is Implicit
    &&& p.encoding.name() == utf8_name()
}

/// A parser in its first state with the options of `b`, whatever its
/// encoding.
pub open spec fn options_from(b: ParserBuilder, p: DefaultParser) -> bool {
    &&& p.buf_position == 0
    &&& p.tag_state == TagState::Init
    &&& p.expand_empty_elements == b.expand_empty_elements
    &&& p.trim_text_start == b.trim_text_start
    &&& p.trim_text_end == b.trim_text_end
    &&& p.trim_markup_names_in_closing_tags == b.trim_markup_names_in_closing_tags
    &&& p.check_end_names == b.check_end_names
    &&& p.check_comments == b.check_comments
    &&& p.stack() == Seq::<Seq<u8>>::empty()
}

impl ParserBuilder {
    /// The default options: no expansion of empty elements, no trimming of
    /// text, trimmed names in end tags, checked end names, unchecked comments.
    pub fn new() -> (r: ParserBuilder)
        ensures
            r == (ParserBuilder {
                expand_empty_elements: false,
                trim_text_start: false,
                trim_text_end: false,
                trim_markup_names_in_closing_tags: true,
                check_end_names: true,
                check_comments: false,
            }),
    {
        ParserBuilder {
            expand_empty_elements: false,
            trim_text_start: false,
            trim_text_end: false,
            trim_markup_names_in_closing_tags: true,
            check_end_names: true,
            check_comments: false,
        }
    }

    /// Whether `<tag/>` reads as a `Start` and an `End` event instead of one
    /// `Empty` event.
    pub fn expand_empty_elements(self, val: bool) -> (r: ParserBuilder)
        ensures
            r == (ParserBuilder { expand_empty_elements: val, ..self }),
    {
        ParserBuilder { expand_empty_elements: val, ..self }
    }

    /// Whether white space is trimmed at both ends of text.
    pub fn trim_text(self, val: bool) -> (r: ParserBuilder)
        ensures
            r == (ParserBuilder { trim_text_start: val, trim_text_end: val, ..self }),
    {
        ParserBuilder { trim_text_start: val, trim_text_end: val, ..self }
    }

    /// Whether white space is trimmed at the end of text.
    pub fn trim_text_end(self, val: bool) -> (r: ParserBuilder)
        ensures
            r == (ParserBuilder { trim_text_end: val, ..self }),
    {
        ParserBuilder { trim_text_end: val, ..self }
    }

    /// Whether white space after the name in an end tag is dropped.
    pub fn trim_markup_names_in_closing_tags(self, val: bool) -> (r: ParserBuilder)
        ensures
            r == (ParserBuilder { trim_markup_names_in_closing_tags: val, ..self }),
    {
        ParserBuilder { trim_markup_names_in_closing_tags: val, ..self }
    }

    /// Whether each end tag must close the element opened last.
    pub fn check_end_names(self, val: bool) -> (r: ParserBuilder)
        ensures
            r == (ParserBuilder { check_end_names: val, ..self }),
    {
        ParserBuilder { check_end_names: val, ..self }
    }

    /// Whether a comment that holds `--` is an error.
    pub fn check_comments(self, val: bool) -> (r: ParserBuilder)
        ensures
            r == (ParserBuilder { check_comments: val, ..self }),
    {
        ParserBuilder { check_comments: val, ..self }
    }

    /// A parser with these options, in its first state, assuming UTF-8.
    pub fn into_parser(self) -> (r: DefaultParser)
        ensures
            parser_from(self, r),
    {
        let r = DefaultParser {
            buf_position: 0,
            tag_state: TagState::Init,
            expand_empty_elements: self.expand_empty_elements,
            trim_text_start: self.trim_text_start,
            trim_text_end: self.trim_text_end,
            trim_markup_names_in_closing_tags: self.trim_markup_names_in_closing_tags,
            check_end_names: self.check_end_names,
            check_comments: self.check_comments,
            opened: Vec::new(),
            encoding: EncodingRef::Implicit(utf8()),
        };
        assert(r.stack() =~= Seq::<Seq<u8>>::empty());
        r
    }
}

impl ParserBuilder {
    /// A namespace-aware parser with these options, in its first state.
    pub fn into_namespaced_parser(self) -> (r: NamespacedParser)
        ensures
            parser_from(self, r.inner),
            r.ns_resolver.wf(),
            r.ns_resolver.entries() == Seq::<(Seq<u8>, Seq<u8>, int)>::empty(),
            r.ns_resolver.nesting_level == 0,
            !r.pending_pop,
    {
        NamespacedParser::from_parser(self.into_parser())
    }
}

/// The options of a reader.
#[derive(Debug, Clone, Copy, PartialEq, Eq, Structural)]
pub struct ReaderBuilder {
    pub parser: ParserBuilder,
}

impl ReaderBuilder {
    /// A builder with the default options of `ParserBuilder::new`.
    pub fn new() -> (r: ReaderBuilder)
        ensures
            r.parser == ParserBuilder::new_spec(),
    {
        ReaderBuilder { parser: ParserBuilder::new() }
    }

    /// See `ParserBuilder::expand_empty_elements`.
    pub fn expand_empty_elements(self, val: bool) -> (r: ReaderBuilder)
        ensures
            r.parser == (ParserBuilder { expand_empty_elements: val, ..self.parser }),
    {
        ReaderBuilder { parser: self.parser.expand_empty_elements(val) }
    }

    /// See `ParserBuilder::trim_text`.
    pub fn trim_text(self, val: bool) -> (r: ReaderBuilder)
        ensures
            r.parser == (ParserBuilder { trim_text_start: val, trim_text_end: val, ..self.parser }),
    {
        ReaderBuilder { parser: self.parser.trim_text(val) }
    }

    /// See `ParserBuilder::trim_text_end`.
    pub fn trim_text_end(self, val: bool) -> (r: ReaderBuilder)
        ensures
            r.parser == (ParserBuilder { trim_text_end: val, ..self.parser }),
    {
        ReaderBuilder { parser: self.parser.trim_text_end(val) }
    }

    /// See `ParserBuilder::trim_markup_names_in_closing_tags`.
    pub fn trim_markup_names_in_closing_tags(self, val: bool) -> (r: ReaderBuilder)
        ensures
            r.parser == (ParserBuilder { trim_markup_names_in_closing_tags: val, ..self.parser }),
    {
        ReaderBuilder { parser: self.parser.trim_markup_names_in_closing_tags(val) }
    }

    /// See `ParserBuilder::check_end_names`.
    pub fn check_end_names(self, val: bool) -> (r: ReaderBuilder)
        ensures
            r.parser == (ParserBuilder { check_end_names: val, ..self.parser }),
    {
        ReaderBuilder { parser: self.parser.check_end_names(val) }
    }

    /// See `ParserBuilder::check_comments`.
    pub fn check_comments(self, val: bool) -> (r: ReaderBuilder)
        ensures
            r.parser == (ParserBuilder { check_comments: val, ..self.parser }),
    {
        ReaderBuilder { parser: self.parser.check_comments(val) }
    }
}

impl ParserBuilder {
    /// The default options.
    pub open spec fn new_spec() -> ParserBuilder {
        ParserBuilder {
            expand_empty_elements: false,
            trim_text_start: false,
            trim_text_end: false,
            trim_markup_names_in_closing_tags: true,
            check_end_names: true,
            check_comments: false,
        }
    }
}

} // verus!
