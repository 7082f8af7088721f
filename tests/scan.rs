use quick_xml_reader::decl::find_attribute;
use quick_xml_reader::error::{EofContext, Error};
use quick_xml_reader::scan::{is_whitespace, BangType, ReadElementState};

#[test]
fn bang_type_from_byte() {
    assert_eq!(BangType::new(Some(b'[')), Ok(BangType::CData));
    assert_eq!(BangType::new(Some(b'-')), Ok(BangType::Comment));
    assert_eq!(BangType::new(Some(b'D')), Ok(BangType::DocType));
    assert_eq!(BangType::new(Some(b'd')), Ok(BangType::DocType));
    assert_eq!(BangType::new(Some(b'x')), Err(Error::UnexpectedBang(b'x')));
    assert_eq!(BangType::new(None), Err(Error::UnexpectedEof(EofContext::Bang)));
}

#[test]
fn bang_errors() {
    assert_eq!(BangType::CData.to_err(), Error::UnexpectedEof(EofContext::CData));
    assert_eq!(BangType::Comment.to_err(), Error::UnexpectedEof(EofContext::Comment));
    assert_eq!(BangType::DocType.to_err(), Error::UnexpectedEof(EofContext::DocType));
}

#[test]
fn comment_needs_length() {
    assert_eq!(BangType::Comment.parse(b"!-->", 0), None);
    assert_eq!(BangType::Comment.parse(b"!---->rest", 0), Some((&b"!----"[..], 6)));
    assert_eq!(BangType::Comment.parse(b"-->", 2), None);
    assert_eq!(BangType::Comment.parse(b"-->", 3), Some((&b"--"[..], 3)));
}

#[test]
fn cdata_end() {
    assert_eq!(
        BangType::CData.parse(b"![CDATA[x]]>other", 0),
        Some((&b"![CDATA[x"[..], 12))
    );
    assert_eq!(BangType::CData.parse(b"![CDATA[x>", 0), None);
}

#[test]
fn doctype_balance() {
    let input = b"!DOCTYPE root [ <!ELEMENT a (#PCDATA)> ]>tail";
    assert_eq!(
        BangType::DocType.parse(input, 0),
        Some((&input[..40], 41))
    );
    assert_eq!(BangType::DocType.parse(b"!DOCTYPE a [<b>", 0), None);
}

#[test]
fn element_scan_skips_quoted_gt() {
    let mut state = ReadElementState::Elem;
    let input = b"tag attr=\">\"  >";
    assert_eq!(state.change(input), Some((&input[..14], 15)));
    let mut state = ReadElementState::Elem;
    assert_eq!(state.change(b"a='>\"'>x"), Some((&b"a='>\"'"[..], 7)));
}

#[test]
fn element_scan_keeps_state_across_chunks() {
    let mut state = ReadElementState::Elem;
    assert_eq!(state.change(b"a=\"x>"), None);
    assert_eq!(state, ReadElementState::DoubleQ);
    assert_eq!(state.change(b"\">"), Some((&b"\""[..], 2)));
    assert_eq!(state, ReadElementState::Elem);
}

#[test]
fn whitespace_bytes() {
    assert!(is_whitespace(b' ') && is_whitespace(b'\t') && is_whitespace(b'\r') && is_whitespace(b'\n'));
    assert!(!is_whitespace(0x0C) && !is_whitespace(b'a'));
}

#[test]
fn attribute_lookup() {
    let s = b" version=\"1.0\" encoding = 'utf-8' ";
    assert_eq!(find_attribute(s, b"encoding"), Some(&b"utf-8"[..]));
    assert_eq!(find_attribute(s, b"version"), Some(&b"1.0"[..]));
    assert_eq!(find_attribute(s, b"standalone"), None);
    assert_eq!(find_attribute(b" encoding='x", b"encoding"), None);
}
