use quick_xml_reader::builder::{ParserBuilder, ReaderBuilder};
use quick_xml_reader::error::{EofContext, Error};
use quick_xml_reader::events::{BytesEnd, BytesStart, BytesText, Event};
use quick_xml_reader::parser::TagState;
use quick_xml_reader::reader::Reader;

#[test]
fn start_text_before_first_tag() {
    let mut reader = Reader::from_str("bom<tag/>");
    assert_eq!(
        reader.read_event().unwrap(),
        Event::StartText(BytesText::from_escaped(b"bom"))
    );
    assert_eq!(
        reader.read_event().unwrap(),
        Event::Empty(BytesStart::borrowed_name(b"tag"))
    );
    assert_eq!(reader.read_event().unwrap(), Event::Eof);
}

#[test]
fn start_text_is_empty_at_first_tag() {
    let mut reader = Reader::from_str("<tag/>");
    assert_eq!(
        reader.read_event().unwrap(),
        Event::StartText(BytesText::from_escaped(b""))
    );
    assert_eq!(
        reader.read_event().unwrap(),
        Event::Empty(BytesStart::borrowed_name(b"tag"))
    );
    assert_eq!(reader.read_event().unwrap(), Event::Eof);
}

#[test]
fn empty_input_is_eof() {
    let mut reader = Reader::from_str("");
    assert_eq!(reader.read_event().unwrap(), Event::Eof);
    assert_eq!(reader.read_event().unwrap(), Event::Eof);
}

#[test]
fn text_after_empty_tag() {
    let mut reader = Reader::from_str("<tag/>text");
    reader.read_event().unwrap();
    reader.read_event().unwrap();
    assert_eq!(
        reader.read_event().unwrap(),
        Event::Text(BytesText::from_escaped(b"text"))
    );
    assert_eq!(reader.read_event().unwrap(), Event::Eof);
}

#[test]
fn empty_tag_not_expanded() {
    let mut reader = Reader::from_str("<tag/>");
    reader.read_event().unwrap();
    assert_eq!(
        reader.read_event().unwrap(),
        Event::Empty(BytesStart::borrowed_name(b"tag"))
    );
    assert_eq!(reader.read_event().unwrap(), Event::Eof);
}

#[test]
fn empty_tag_expanded() {
    let mut reader = Reader::builder().expand_empty_elements(true).into_str_reader("<tag/>");
    reader.read_event().unwrap();
    assert_eq!(
        reader.read_event().unwrap(),
        Event::Start(BytesStart::borrowed_name(b"tag"))
    );
    assert_eq!(reader.parser.tag_state, TagState::Empty);
    assert_eq!(
        reader.read_event().unwrap(),
        Event::End(BytesEnd::owned(b"tag".to_vec()))
    );
    assert_eq!(reader.read_event().unwrap(), Event::Eof);
}

#[test]
fn expanded_tag_with_attributes() {
    let mut reader = Reader::builder()
        .expand_empty_elements(true)
        .into_str_reader("<tag a='1' />");
    reader.read_event().unwrap();
    assert_eq!(
        reader.read_event().unwrap(),
        Event::Start(BytesStart::borrowed(b"tag a='1' ", 3))
    );
    assert_eq!(
        reader.read_event().unwrap(),
        Event::End(BytesEnd::owned(b"tag".to_vec()))
    );
}

#[test]
fn mismatched_end_is_an_error() {
    let mut reader = Reader::from_str("<a><b></a></b>");
    reader.read_event().unwrap();
    reader.read_event().unwrap();
    reader.read_event().unwrap();
    assert_eq!(
        reader.read_event(),
        Err(Error::EndEventMismatch {
            expected: b"b".to_vec(),
            found: b"a".to_vec()
        })
    );
    assert_eq!(reader.read_event().unwrap(), Event::Eof);
}

#[test]
fn mismatched_end_accepted_without_check() {
    let mut reader = Reader::builder().check_end_names(false).into_str_reader("<a><b></a></b>");
    reader.read_event().unwrap();
    reader.read_event().unwrap();
    reader.read_event().unwrap();
    assert_eq!(
        reader.read_event().unwrap(),
        Event::End(BytesEnd::owned(b"a".to_vec()))
    );
    assert_eq!(
        reader.read_event().unwrap(),
        Event::End(BytesEnd::owned(b"b".to_vec()))
    );
    assert_eq!(reader.read_event().unwrap(), Event::Eof);
}

#[test]
fn end_without_start_is_an_error() {
    let mut reader = Reader::from_str("</tag>");
    reader.read_event().unwrap();
    assert_eq!(
        reader.read_event(),
        Err(Error::EndEventMismatch {
            expected: b"".to_vec(),
            found: b"tag".to_vec()
        })
    );
    assert_eq!(reader.buffer_position(), 2);
}

#[test]
fn end_name_trimmed() {
    let mut reader = Reader::from_str("<a></a  \t>");
    reader.read_event().unwrap();
    reader.read_event().unwrap();
    assert_eq!(
        reader.read_event().unwrap(),
        Event::End(BytesEnd::owned(b"a".to_vec()))
    );
}

#[test]
fn end_name_untrimmed_when_disabled() {
    let mut reader = Reader::builder()
        .trim_markup_names_in_closing_tags(false)
        .check_end_names(false)
        .into_str_reader("</a >");
    reader.read_event().unwrap();
    assert_eq!(
        reader.read_event().unwrap(),
        Event::End(BytesEnd::owned(b"a ".to_vec()))
    );
}

#[test]
fn quoted_gt_stays_in_tag() {
    let mut reader = Reader::from_str("<tag attr=\">\"  >");
    reader.read_event().unwrap();
    assert_eq!(
        reader.read_event().unwrap(),
        Event::Start(BytesStart::borrowed(b"tag attr=\">\"  ", 3))
    );
}

#[test]
fn minimal_comment_accepted() {
    let mut reader = Reader::from_str("<!----->");
    reader.read_event().unwrap();
    assert_eq!(
        reader.read_event().unwrap(),
        Event::Comment(BytesText::from_escaped(b"-"))
    );
}

#[test]
fn empty_comment() {
    let mut reader = Reader::from_str("<!---->");
    reader.read_event().unwrap();
    assert_eq!(
        reader.read_event().unwrap(),
        Event::Comment(BytesText::from_escaped(b""))
    );
}

#[test]
fn short_comment_rejected() {
    let mut reader = Reader::from_str("<!-->");
    reader.read_event().unwrap();
    assert_eq!(
        reader.read_event(),
        Err(Error::UnexpectedEof(EofContext::Comment))
    );
    assert_eq!(reader.read_event().unwrap(), Event::Eof);
}

#[test]
fn comment_with_double_dash_checked() {
    let mut reader = Reader::builder().check_comments(true).into_str_reader("<!-- a -- b -->");
    reader.read_event().unwrap();
    assert_eq!(
        reader.read_event(),
        Err(Error::UnexpectedToken(b"--".to_vec()))
    );
    assert_eq!(reader.buffer_position(), 7);
}

#[test]
fn comment_ending_in_three_dashes_checked() {
    let mut reader = Reader::builder().check_comments(true).into_str_reader("<a/><!-- x --->");
    reader.read_event().unwrap();
    reader.read_event().unwrap();
    assert_eq!(
        reader.read_event(),
        Err(Error::UnexpectedToken(b"--".to_vec()))
    );
    assert_eq!(reader.buffer_position(), 11);
}

#[test]
fn comment_with_double_dash_unchecked() {
    let mut reader = Reader::from_str("<!-- a -- b -->");
    reader.read_event().unwrap();
    assert_eq!(
        reader.read_event().unwrap(),
        Event::Comment(BytesText::from_escaped(b" a -- b "))
    );
}

#[test]
fn doctype_with_internal_subset() {
    let mut reader = Reader::from_str("<!DOCTYPE root [ <!ELEMENT a (#PCDATA)> ]>");
    reader.read_event().unwrap();
    assert_eq!(
        reader.read_event().unwrap(),
        Event::DocType(BytesText::from_escaped(b"root [ <!ELEMENT a (#PCDATA)> ]"))
    );
    assert_eq!(reader.read_event().unwrap(), Event::Eof);
}

#[test]
fn doctype_lowercase() {
    let mut reader = Reader::from_str("<!doctype html>");
    reader.read_event().unwrap();
    assert_eq!(
        reader.read_event().unwrap(),
        Event::DocType(BytesText::from_escaped(b"html"))
    );
}

#[test]
fn cdata_section() {
    let mut reader = Reader::from_str("<![CDATA[a]]b>]]>");
    reader.read_event().unwrap();
    assert_eq!(
        reader.read_event().unwrap(),
        Event::CData(BytesText::from_escaped(b"a]]b>"))
    );
}

#[test]
fn unknown_bang_is_an_error() {
    let mut reader = Reader::from_str("<!x>");
    reader.read_event().unwrap();
    assert_eq!(reader.read_event(), Err(Error::UnexpectedBang(b'x')));
    assert_eq!(reader.read_event().unwrap(), Event::Eof);
}

#[test]
fn declaration_and_processing_instruction() {
    let mut reader = Reader::from_str("<?xml version='1.0'?><?pi data?>");
    reader.read_event().unwrap();
    assert_eq!(
        reader.read_event().unwrap(),
        Event::Decl(BytesStart::borrowed(b"xml version='1.0'", 3))
    );
    assert_eq!(
        reader.read_event().unwrap(),
        Event::PI(BytesText::from_escaped(b"pi data"))
    );
}

#[test]
fn unterminated_declaration() {
    let mut reader = Reader::from_str("<?xml>");
    reader.read_event().unwrap();
    assert_eq!(
        reader.read_event(),
        Err(Error::UnexpectedEof(EofContext::XmlDecl))
    );
}

#[test]
fn unterminated_element() {
    let mut reader = Reader::from_str("<tag attr='>");
    reader.read_event().unwrap();
    assert_eq!(
        reader.read_event(),
        Err(Error::UnexpectedEof(EofContext::Element))
    );
    assert_eq!(reader.read_event().unwrap(), Event::Eof);
}

#[test]
fn trimmed_whitespace_text_is_skipped() {
    let mut reader = Reader::builder().trim_text(true).into_str_reader("  <a>  \n </a>  ");
    assert_eq!(
        reader.read_event().unwrap(),
        Event::StartText(BytesText::from_escaped(b""))
    );
    assert_eq!(
        reader.read_event().unwrap(),
        Event::Start(BytesStart::borrowed_name(b"a"))
    );
    assert_eq!(
        reader.read_event().unwrap(),
        Event::End(BytesEnd::owned(b"a".to_vec()))
    );
    assert_eq!(reader.read_event().unwrap(), Event::Eof);
}

#[test]
fn untrimmed_whitespace_text_is_kept() {
    let mut reader = Reader::from_str("<a> </a>");
    reader.read_event().unwrap();
    reader.read_event().unwrap();
    assert_eq!(
        reader.read_event().unwrap(),
        Event::Text(BytesText::from_escaped(b" "))
    );
}

#[test]
fn trim_text_end_only() {
    let mut reader = Reader::builder().trim_text_end(true).into_str_reader("<a> x  </a>");
    reader.read_event().unwrap();
    reader.read_event().unwrap();
    assert_eq!(
        reader.read_event().unwrap(),
        Event::Text(BytesText::from_escaped(b" x"))
    );
}

#[test]
fn buffer_position_while_opened() {
    let mut reader = Reader::from_str("ab<tag>");
    reader.read_event().unwrap();
    assert_eq!(reader.parser.buf_position, 3);
    assert_eq!(reader.buffer_position(), 2);
    reader.read_event().unwrap();
    assert_eq!(reader.buffer_position(), 7);
}

#[test]
fn read_event_into_copies_bytes() {
    let xml = "<a x='1'>text<!--c--></a>";
    let mut borrowed = Reader::from_str(xml);
    let mut copied = Reader::from_str(xml);
    loop {
        let mut buf = Vec::new();
        let a = borrowed.read_event();
        let b = copied.read_event_into(&mut buf);
        assert_eq!(a, b);
        if a == Ok(Event::Eof) {
            break;
        }
    }
}

#[test]
fn read_event_into_appends_to_buffer() {
    let mut reader = Reader::from_str("hello<a/>");
    let mut buf = b"x".to_vec();
    let e = reader.read_event_into(&mut buf).unwrap();
    assert_eq!(e, Event::StartText(BytesText::from_escaped(b"hello")));
    assert_eq!(buf, b"xhello".to_vec());
}

#[test]
fn builder_options() {
    let b = ParserBuilder::new()
        .expand_empty_elements(true)
        .trim_text(true)
        .trim_markup_names_in_closing_tags(false)
        .check_end_names(false)
        .check_comments(true);
    assert!(b.expand_empty_elements);
    assert!(b.trim_text_start && b.trim_text_end);
    assert!(!b.trim_markup_names_in_closing_tags);
    assert!(!b.check_end_names);
    assert!(b.check_comments);
    let r = ReaderBuilder::new().trim_text_end(true);
    assert!(r.parser.trim_text_end && !r.parser.trim_text_start);
}

#[test]
fn whitespace_text_suppressed_when_trimmed_at_end() {
    let mut reader = Reader::builder().trim_text_end(true).into_str_reader("<a> \n </a>  ");
    assert_eq!(
        reader.read_event().unwrap(),
        Event::StartText(BytesText::from_escaped(b""))
    );
    assert_eq!(
        reader.read_event().unwrap(),
        Event::Start(BytesStart::borrowed_name(b"a"))
    );
    assert_eq!(
        reader.read_event().unwrap(),
        Event::End(BytesEnd::owned(b"a".to_vec()))
    );
    assert_eq!(reader.read_event().unwrap(), Event::Eof);
}

#[test]
fn start_text_trimmed_at_end() {
    let mut reader = Reader::builder().trim_text_end(true).into_str_reader(" x \t<a/>");
    assert_eq!(
        reader.read_event().unwrap(),
        Event::StartText(BytesText::from_escaped(b" x"))
    );
}
