use quick_xml_reader::builder::ParserBuilder;
use quick_xml_reader::error::{EofContext, Error};
use quick_xml_reader::events::{BytesStart, BytesText, Event};
use quick_xml_reader::parser::{DefaultParser, TagState};
use quick_xml_reader::reader::Reader;

#[test]
fn read_to_end_skips_nested_same_names() {
    let mut reader = Reader::builder().trim_text(true).into_str_reader(
        "<outer><inner><inner></inner><inner/><outer></outer></inner></outer><after/>",
    );
    reader.read_event().unwrap();
    reader.read_event().unwrap();
    assert_eq!(
        reader.read_event().unwrap(),
        Event::Start(BytesStart::borrowed_name(b"inner"))
    );
    reader.read_to_end(b"inner").unwrap();
    assert_eq!(
        reader.read_event().unwrap(),
        Event::End(quick_xml_reader::events::BytesEnd::owned(b"outer".to_vec()))
    );
    assert_eq!(
        reader.read_event().unwrap(),
        Event::Empty(BytesStart::borrowed_name(b"after"))
    );
}

#[test]
fn read_to_end_reports_missing_end() {
    let mut reader = Reader::builder().check_end_names(false).into_str_reader("<a><b></b>");
    reader.read_event().unwrap();
    reader.read_event().unwrap();
    assert_eq!(
        reader.read_to_end(b"a"),
        Err(Error::UnexpectedEof(EofContext::EndTag(b"a".to_vec())))
    );
}

#[test]
fn read_to_end_passes_errors_on() {
    let mut reader = Reader::from_str("<a><b></c></a>");
    reader.read_event().unwrap();
    reader.read_event().unwrap();
    assert_eq!(
        reader.read_to_end(b"a"),
        Err(Error::EndEventMismatch {
            expected: b"b".to_vec(),
            found: b"c".to_vec()
        })
    );
}

#[test]
fn read_to_end_into_leaves_buffer_empty() {
    let mut reader = Reader::from_str("<a><b/>text</a>rest");
    reader.read_event().unwrap();
    reader.read_event().unwrap();
    let mut buf = b"old".to_vec();
    reader.read_to_end_into(b"a", &mut buf).unwrap();
    assert!(buf.is_empty());
    assert_eq!(
        reader.read_event().unwrap(),
        Event::Text(BytesText::from_escaped(b"rest"))
    );
}

#[test]
fn read_text_into_reads_text() {
    let mut reader = Reader::builder()
        .trim_text(true)
        .into_str_reader("<tag1>text1</tag1><tag1><tag2>text4</tag2></tag1>");
    reader.read_event().unwrap();
    reader.read_event().unwrap();
    let mut buf = Vec::new();
    assert_eq!(reader.read_text_into(b"tag1", &mut buf).unwrap(), "text1");
    reader.read_event().unwrap();
    reader.read_event().unwrap();
    assert_eq!(reader.read_text_into(b"tag2", &mut buf).unwrap(), "text4");
}

#[test]
fn read_text_into_empty_element() {
    let mut reader = Reader::from_str("<a></a>");
    reader.read_event().unwrap();
    reader.read_event().unwrap();
    let mut buf = Vec::new();
    assert_eq!(reader.read_text_into(b"a", &mut buf).unwrap(), "");
}

#[test]
fn read_text_into_errors() {
    let mut reader = Reader::from_str("<a><b/></a>");
    reader.read_event().unwrap();
    reader.read_event().unwrap();
    let mut buf = Vec::new();
    assert_eq!(reader.read_text_into(b"a", &mut buf), Err(Error::TextNotFound));

    let mut reader = Reader::builder().check_end_names(false).into_str_reader("<a>");
    reader.read_event().unwrap();
    reader.read_event().unwrap();
    let mut buf = Vec::new();
    assert_eq!(
        reader.read_text_into(b"a", &mut buf),
        Err(Error::UnexpectedEof(EofContext::Text))
    );
}

#[test]
fn read_text_into_reports_undecodable_text() {
    let mut reader = Reader::from_bytes(b"<a>\xFF</a>");
    reader.read_event().unwrap();
    reader.read_event().unwrap();
    let mut buf = Vec::new();
    assert_eq!(reader.read_text_into(b"a", &mut buf), Err(Error::NonDecodable));
    assert_eq!(reader.read_event().unwrap(), Event::Eof);
}

#[test]
fn errors_stop_the_reader() {
    let mut reader = Reader::from_str("<a></b><c/>");
    reader.read_event().unwrap();
    reader.read_event().unwrap();
    assert!(reader.read_event().is_err());
    assert_eq!(reader.parser.tag_state, TagState::Exit);
    assert_eq!(reader.read_event().unwrap(), Event::Eof);
    assert_eq!(reader.read_event().unwrap(), Event::Eof);
    assert_eq!(reader.get_ref(), &&b"<c/>"[..]);
}

#[test]
fn accessors_and_constructors() {
    let parser = ParserBuilder::new().check_comments(true).into_parser();
    assert!(parser.check_comments);
    let mut reader = Reader::from_reader_and_parser(b"<x/>", parser);
    assert_eq!(reader.get_ref(), &&b"<x/>"[..]);
    *reader.get_mut() = b"<y/>";
    reader.read_event().unwrap();
    assert_eq!(
        reader.read_event().unwrap(),
        Event::Empty(BytesStart::borrowed_name(b"y"))
    );
    assert_eq!(reader.into_inner(), b"");
    let reader = Reader::from_reader_and_builder(b"abc", ParserBuilder::new().trim_text(true));
    assert!(reader.parser.trim_text_start);
    let reader = Reader::from_bytes_builder(b"abc", ParserBuilder::new().expand_empty_elements(true));
    assert!(reader.parser.expand_empty_elements);
    let d = DefaultParser::new();
    assert_eq!(d.tag_state, TagState::Init);
    assert!(d.check_end_names && d.trim_markup_names_in_closing_tags);
}
