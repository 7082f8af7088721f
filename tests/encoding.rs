use quick_xml_reader::encoding::{detect_encoding, Decoder, EncodingRef};
use quick_xml_reader::error::Error;
use quick_xml_reader::events::{BytesText, Event};
use quick_xml_reader::reader::Reader;

#[test]
fn bom_detected() {
    let mut reader = Reader::from_bytes(b"\xFF\xFE<?xml encoding='windows-1251'?>");
    assert_eq!(reader.decoder().encoding(), b"UTF-8");
    reader.read_event().unwrap();
    assert_eq!(reader.decoder().encoding(), b"UTF-16LE");
    assert_eq!(reader.encoding(), &EncodingRef::BomDetected(b"UTF-16LE".to_vec()));
    reader.read_event().unwrap();
    assert_eq!(reader.decoder().encoding(), b"windows-1251");
    assert_eq!(reader.encoding(), &EncodingRef::XmlDetected(b"windows-1251".to_vec()));
    assert_eq!(reader.read_event().unwrap(), Event::Eof);
}

#[test]
fn xml_declaration() {
    let mut reader = Reader::from_bytes(b"<?xml encoding='UTF-16'?><?xml encoding='windows-1251'?>");
    assert_eq!(reader.decoder().encoding(), b"UTF-8");
    assert_eq!(
        reader.read_event().unwrap(),
        Event::StartText(BytesText::from_escaped(b""))
    );
    reader.read_event().unwrap();
    assert_eq!(reader.decoder().encoding(), b"UTF-16LE");
    reader.read_event().unwrap();
    assert_eq!(reader.decoder().encoding(), b"UTF-16LE");
    assert_eq!(reader.read_event().unwrap(), Event::Eof);
}

#[test]
fn str_always_has_utf8() {
    let mut reader = Reader::from_str("<?xml encoding='UTF-16'?>");
    assert_eq!(reader.decoder().encoding(), b"UTF-8");
    reader.read_event().unwrap();
    reader.read_event().unwrap();
    assert_eq!(reader.decoder().encoding(), b"UTF-8");
    assert_eq!(reader.encoding(), &EncodingRef::Explicit(b"UTF-8".to_vec()));
    assert_eq!(reader.read_event().unwrap(), Event::Eof);
}

#[test]
fn unknown_label_keeps_encoding() {
    let mut reader = Reader::from_bytes(b"<?xml version=\"1.0\" encoding=\"no-such\"?>");
    reader.read_event().unwrap();
    reader.read_event().unwrap();
    assert_eq!(reader.encoding(), &EncodingRef::Implicit(b"UTF-8".to_vec()));
}

#[test]
fn detection_patterns() {
    assert_eq!(detect_encoding(b"\xFE\xFFx"), Some(b"UTF-16BE".to_vec()));
    assert_eq!(detect_encoding(b"\xFF\xFEx"), Some(b"UTF-16LE".to_vec()));
    assert_eq!(detect_encoding(b"\xEF\xBB\xBFx"), Some(b"UTF-8".to_vec()));
    assert_eq!(detect_encoding(b"\x00<\x00?"), Some(b"UTF-16BE".to_vec()));
    assert_eq!(detect_encoding(b"<\x00?\x00"), Some(b"UTF-16LE".to_vec()));
    assert_eq!(detect_encoding(b"<?xm"), Some(b"UTF-8".to_vec()));
    assert_eq!(detect_encoding(b"abc"), None);
    assert_eq!(detect_encoding(b""), None);
}

#[test]
fn decode_utf8_and_errors() {
    let d = Decoder { encoding: b"UTF-8".to_vec() };
    assert_eq!(d.decode(b"caf\xC3\xA9").unwrap(), "café");
    assert_eq!(d.decode(b"\xFF"), Err(Error::NonDecodable));
    assert_eq!(d.decode_with_bom_removal(b"\xEF\xBB\xBFab").unwrap(), "ab");
    assert_eq!(d.decode(b"\xEF\xBB\xBFab").unwrap(), "\u{FEFF}ab");
}

#[test]
fn decode_utf16le_and_windows_1251() {
    let d = Decoder { encoding: b"UTF-16LE".to_vec() };
    assert_eq!(d.decode_with_bom_removal(b"\xFF\xFEa\x00b\x00").unwrap(), "ab");
    assert_eq!(d.remove_bom(b"\xFF\xFEa\x00"), b"a\x00");
    let w = Decoder { encoding: b"windows-1251".to_vec() };
    assert_eq!(w.decode(b"\xC0").unwrap(), "\u{0410}");
    assert_eq!(w.remove_bom(b"\xFF\xFEa"), b"\xFF\xFEa");
}

#[test]
fn encoding_ref_accessors() {
    let e = EncodingRef::BomDetected(b"UTF-16BE".to_vec());
    assert_eq!(e.encoding(), b"UTF-16BE");
    assert!(e.can_be_refined());
    assert!(!EncodingRef::XmlDetected(b"UTF-8".to_vec()).can_be_refined());
    assert!(!EncodingRef::Explicit(b"UTF-8".to_vec()).can_be_refined());
    assert!(EncodingRef::Implicit(b"UTF-8".to_vec()).can_be_refined());
}
