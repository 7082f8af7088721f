use quick_xml_reader::events::{BytesEnd, BytesStart, Event};
use quick_xml_reader::namespace::{split_qname, NamespaceResolver, ResolveResult};
use quick_xml_reader::reader::Reader;

#[test]
fn default_namespace_on_elements() {
    let mut reader = Reader::from_reader_namespaced(b"<a xmlns='urn:x'><b/></a>");
    let mut buf = Vec::new();
    let (res, _) = reader.read_namespaced_event(&mut buf).unwrap();
    assert_eq!(res, ResolveResult::Unbound);
    let mut buf = Vec::new();
    let (res, ev) = reader.read_namespaced_event(&mut buf).unwrap();
    assert_eq!(res, ResolveResult::Bound(b"urn:x".to_vec()));
    assert_eq!(ev, Event::Start(BytesStart::borrowed(b"a xmlns='urn:x'", 1)));
    let mut buf = Vec::new();
    let (res, ev) = reader.read_namespaced_event(&mut buf).unwrap();
    assert_eq!(res, ResolveResult::Bound(b"urn:x".to_vec()));
    assert_eq!(ev, Event::Empty(BytesStart::borrowed_name(b"b")));
    let mut buf = Vec::new();
    let (res, ev) = reader.read_namespaced_event(&mut buf).unwrap();
    assert_eq!(res, ResolveResult::Bound(b"urn:x".to_vec()));
    assert_eq!(ev, Event::End(BytesEnd::owned(b"a".to_vec())));
    let mut buf = Vec::new();
    let (res, ev) = reader.read_namespaced_event(&mut buf).unwrap();
    assert_eq!(res, ResolveResult::Unbound);
    assert_eq!(ev, Event::Eof);
    assert_eq!(reader.parser.ns_resolver.nesting_level, 0);
    assert!(reader.parser.ns_resolver.bindings.is_empty());
}

#[test]
fn prefixed_names_and_scopes() {
    let mut reader =
        Reader::from_reader_namespaced(b"<p:a xmlns:p='urn:p'><p:b/><q:c/></p:a><p:d/>");
    let mut buf = Vec::new();
    reader.read_namespaced_event(&mut buf).unwrap();
    let (res, _) = reader.read_namespaced_event(&mut buf).unwrap();
    assert_eq!(res, ResolveResult::Bound(b"urn:p".to_vec()));
    let mut buf = Vec::new();
    let (res, _) = reader.read_namespaced_event(&mut buf).unwrap();
    assert_eq!(res, ResolveResult::Bound(b"urn:p".to_vec()));
    let mut buf = Vec::new();
    let (res, _) = reader.read_namespaced_event(&mut buf).unwrap();
    assert_eq!(res, ResolveResult::Unknown(b"q".to_vec()));
    let mut buf = Vec::new();
    let (res, _) = reader.read_namespaced_event(&mut buf).unwrap();
    assert_eq!(res, ResolveResult::Bound(b"urn:p".to_vec()));
    let mut buf = Vec::new();
    let (res, _) = reader.read_namespaced_event(&mut buf).unwrap();
    assert_eq!(res, ResolveResult::Unknown(b"p".to_vec()));
}

#[test]
fn empty_element_keeps_its_scope_until_next_read() {
    let mut reader = Reader::from_reader_namespaced(b"<img r:id='1' xmlns:r='urn:r'/>");
    let mut buf = Vec::new();
    reader.read_namespaced_event(&mut buf).unwrap();
    let mut buf = Vec::new();
    reader.read_namespaced_event(&mut buf).unwrap();
    let (res, local) = reader.attribute_namespace(b"r:id");
    assert_eq!(res, ResolveResult::Bound(b"urn:r".to_vec()));
    assert_eq!(local, b"id");
    let mut buf = Vec::new();
    reader.read_namespaced_event(&mut buf).unwrap();
    let (res, _) = reader.attribute_namespace(b"r:id");
    assert_eq!(res, ResolveResult::Unknown(b"r".to_vec()));
}

#[test]
fn attributes_ignore_default_namespace() {
    let mut reader = Reader::from_reader_namespaced(b"<a xmlns='urn:x'>");
    let mut buf = Vec::new();
    reader.read_namespaced_event(&mut buf).unwrap();
    let mut buf = Vec::new();
    reader.read_namespaced_event(&mut buf).unwrap();
    assert_eq!(reader.attribute_namespace(b"k"), (ResolveResult::Unbound, &b"k"[..]));
    assert_eq!(
        reader.event_namespace(b"k"),
        (ResolveResult::Bound(b"urn:x".to_vec()), &b"k"[..])
    );
}

#[test]
fn resolver_push_pop() {
    let mut r = NamespaceResolver::new();
    r.push(b"a xmlns:x='1' xmlns='2' y='3'", 1);
    assert_eq!(r.nesting_level, 1);
    assert_eq!(r.bindings.len(), 2);
    assert_eq!(r.find(b"x:e"), ResolveResult::Bound(b"1".to_vec()));
    assert_eq!(r.find(b"e"), ResolveResult::Bound(b"2".to_vec()));
    r.push(b"b xmlns=''", 1);
    assert_eq!(r.find(b"e"), ResolveResult::Unbound);
    r.pop();
    assert_eq!(r.find(b"e"), ResolveResult::Bound(b"2".to_vec()));
    r.pop();
    assert_eq!(r.find(b"x:e"), ResolveResult::Unknown(b"x".to_vec()));
    r.pop();
    assert_eq!(r.nesting_level, 0);
}

#[test]
fn qualified_name_split() {
    assert_eq!(split_qname(b"a:b:c"), (Some(&b"a"[..]), &b"b:c"[..]));
    assert_eq!(split_qname(b"abc"), (None, &b"abc"[..]));
}

#[test]
fn namespaced_reader_plain_reads() {
    let mut reader = Reader::from_reader_namespaced(b"<a xmlns='urn:x'><b>t</b></a>");
    assert_eq!(reader.decoder().encoding(), b"UTF-8");
    assert_eq!(reader.encoding().encoding(), b"UTF-8");
    reader.read_event().unwrap();
    assert_eq!(reader.buffer_position(), 0);
    assert_eq!(
        reader.read_event().unwrap(),
        Event::Start(BytesStart::borrowed(b"a xmlns='urn:x'", 1))
    );
    assert!(reader.parser.ns_resolver.bindings.is_empty());
    let mut buf = Vec::new();
    assert_eq!(
        reader.read_event_into(&mut buf).unwrap(),
        Event::Start(BytesStart::borrowed_name(b"b"))
    );
    let mut buf = Vec::new();
    assert_eq!(reader.read_text_into(b"b", &mut buf).unwrap(), "t");
    reader.read_to_end(b"a").unwrap();
    assert_eq!(reader.read_event().unwrap(), Event::Eof);
}

#[test]
fn namespaced_reader_read_to_end_into() {
    let mut reader = Reader::from_reader_namespaced(b"<a><c/></a>");
    let mut buf = Vec::new();
    reader.read_namespaced_event(&mut buf).unwrap();
    let mut buf = Vec::new();
    reader.read_namespaced_event(&mut buf).unwrap();
    let mut buf = b"x".to_vec();
    reader.read_to_end_into(b"a", &mut buf).unwrap();
    assert!(buf.is_empty());
    assert_eq!(reader.read_event().unwrap(), Event::Eof);
}
