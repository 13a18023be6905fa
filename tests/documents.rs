use byteorder::{LittleEndian, WriteBytesExt};
use fbx_direct::{Error, FbxEvent, IoError, IoErrorKind, Parser, ParserConfig};

const MAGIC: &[u8] = b"Kaydara FBX Binary  \0";

struct Node {
    name: Vec<u8>,
    num_properties: u64,
    properties: Vec<u8>,
    children: Vec<Node>,
}

fn leaf(name: &str, num_properties: u64, properties: Vec<u8>) -> Node {
    Node { name: name.as_bytes().to_vec(), num_properties, properties, children: Vec::new() }
}

fn header(wide: bool, end: u64, num: u64, len: u64, name_len: u8) -> Vec<u8> {
    let mut out = Vec::new();
    if wide {
        out.write_u64::<LittleEndian>(end).unwrap();
        out.write_u64::<LittleEndian>(num).unwrap();
        out.write_u64::<LittleEndian>(len).unwrap();
    } else {
        out.write_u32::<LittleEndian>(end as u32).unwrap();
        out.write_u32::<LittleEndian>(num as u32).unwrap();
        out.write_u32::<LittleEndian>(len as u32).unwrap();
    }
    out.push(name_len);
    out
}

fn null_header(wide: bool) -> Vec<u8> {
    header(wide, 0, 0, 0, 0)
}

fn encode_node(node: &Node, start: usize, wide: bool) -> Vec<u8> {
    let header_len = if wide { 25 } else { 13 };
    let mut body = Vec::new();
    body.extend_from_slice(&node.name);
    body.extend_from_slice(&node.properties);
    let mut pos = start + header_len + body.len();
    for child in &node.children {
        let bytes = encode_node(child, pos, wide);
        pos += bytes.len();
        body.extend(bytes);
    }
    body.extend(null_header(wide));
    let end = (start + header_len + body.len()) as u64;
    let mut out = header(wide, end, node.num_properties, node.properties.len() as u64, node.name.len() as u8);
    out.extend(body);
    out
}

fn document(version: i32, nodes: &[Node]) -> Vec<u8> {
    let wide = version >= 7500;
    let mut out = MAGIC.to_vec();
    out.extend_from_slice(&[0x1a, 0x00]);
    out.write_i32::<LittleEndian>(version).unwrap();
    for node in nodes {
        let start = out.len();
        let bytes = encode_node(node, start, wide);
        out.extend(bytes);
    }
    out.extend(null_header(wide));
    out.extend_from_slice(&[0xf8, 0x5a, 0x8c, 0x6a, 0xde, 0xf5, 0xd9, 0x7e]);
    out
}

/// Pulls events until the end of the data or an error, both included.
fn pull_all(data: &[u8]) -> Vec<Result<FbxEvent, Error>> {
    let mut parser = Parser::new(ParserConfig::new());
    let mut out = Vec::new();
    loop {
        let ev = parser.next(data);
        let stop = matches!(ev, Ok(FbxEvent::EndFbx) | Err(_));
        out.push(ev);
        if stop || out.len() > 1000 {
            return out;
        }
    }
}

fn kinds(events: &[Result<FbxEvent, Error>]) -> Vec<String> {
    events
        .iter()
        .map(|e| match e {
            Ok(FbxEvent::StartFbx(h)) => format!("StartFbx({})", h.version),
            Ok(FbxEvent::EndFbx) => "EndFbx".to_string(),
            Ok(FbxEvent::StartNode { name, .. }) => format!("StartNode({})", name),
            Ok(FbxEvent::EndNode) => "EndNode".to_string(),
            Err(e) => format!("Err({:?})", e),
        })
        .collect()
}

#[test]
fn empty_document() {
    let mut data = MAGIC.to_vec();
    data.extend_from_slice(&[0x1a, 0x00, 0xe8, 0x1c, 0x00, 0x00]);
    data.extend_from_slice(&[0u8; 13]);
    data.extend_from_slice(&[0xde, 0xad, 0xbe, 0xef]);
    let mut parser = Parser::new(ParserConfig::new());
    assert!(matches!(parser.next(&data), Ok(FbxEvent::StartFbx(h)) if h.version == 7400));
    assert!(matches!(parser.next(&data), Ok(FbxEvent::EndFbx)));
    assert!(matches!(parser.next(&data), Ok(FbxEvent::EndFbx)));
    assert!(matches!(parser.next(&data), Ok(FbxEvent::EndFbx)));
}

#[test]
fn single_empty_node() {
    let data = document(7400, &[leaf("A", 0, Vec::new())]);
    let events = pull_all(&data);
    assert_eq!(kinds(&events), vec!["StartFbx(7400)", "StartNode(A)", "EndNode", "EndFbx"]);
    match &events[1] {
        Ok(FbxEvent::StartNode { properties, .. }) => {
            assert_eq!(properties.num_properties(), 0);
            assert!(properties.iter().next().is_none());
        },
        _ => panic!("expected a node"),
    }
}

#[test]
fn version_7500_layout() {
    let data = document(7500, &[leaf("A", 0, Vec::new())]);
    let events = pull_all(&data);
    assert_eq!(kinds(&events), vec!["StartFbx(7500)", "StartNode(A)", "EndNode", "EndFbx"]);
}

#[test]
fn nested_nodes_are_balanced() {
    let mut root = leaf("Root", 0, Vec::new());
    let mut mid = leaf("Mid", 0, Vec::new());
    mid.children.push(leaf("Leaf1", 0, Vec::new()));
    mid.children.push(leaf("Leaf2", 0, Vec::new()));
    root.children.push(mid);
    root.children.push(leaf("Last", 0, Vec::new()));
    for version in [7400, 7500] {
        let data = document(version, &[root_clone(&root), leaf("Second", 0, Vec::new())]);
        let events = pull_all(&data);
        let k = kinds(&events);
        assert_eq!(
            k[1..].to_vec(),
            vec![
                "StartNode(Root)", "StartNode(Mid)", "StartNode(Leaf1)", "EndNode",
                "StartNode(Leaf2)", "EndNode", "EndNode", "StartNode(Last)", "EndNode",
                "EndNode", "StartNode(Second)", "EndNode", "EndFbx",
            ]
        );
        let mut depth: i32 = 0;
        for e in &events {
            match e {
                Ok(FbxEvent::StartNode { .. }) => depth += 1,
                Ok(FbxEvent::EndNode) => {
                    depth -= 1;
                    assert!(depth >= 0);
                },
                _ => {},
            }
        }
        assert_eq!(depth, 0);
    }
}

fn root_clone(n: &Node) -> Node {
    Node {
        name: n.name.clone(),
        num_properties: n.num_properties,
        properties: n.properties.clone(),
        children: n.children.iter().map(root_clone).collect(),
    }
}

#[test]
fn node_end_without_null_record() {
    // A node whose end offset is reached without a null record ends there all the same.
    let mut data = MAGIC.to_vec();
    data.extend_from_slice(&[0x1a, 0x00, 0xe8, 0x1c, 0x00, 0x00]);
    let start = data.len();
    data.extend(header(false, (start + 13 + 1) as u64, 0, 0, 1));
    data.push(b'A');
    data.extend(null_header(false));
    let events = pull_all(&data);
    assert_eq!(kinds(&events), vec!["StartFbx(7400)", "StartNode(A)", "EndNode", "EndFbx"]);
}

#[test]
fn position_counts_consumed_bytes() {
    let data = document(7400, &[leaf("AB", 1, vec![b'I', 1, 0, 0, 0])]);
    let mut parser = Parser::new(ParserConfig::new());
    assert_eq!(parser.pos(), 0);
    parser.next(&data).unwrap();
    assert_eq!(parser.pos(), 27);
    parser.next(&data).unwrap();
    assert_eq!(parser.pos(), 27 + 13 + 2 + 5);
    parser.next(&data).unwrap();
    assert_eq!(parser.pos(), 27 + 13 + 2 + 5 + 13);
    parser.next(&data).unwrap();
    assert_eq!(parser.pos(), 27 + 13 + 2 + 5 + 13 + 13);
}

#[test]
fn short_input_is_unexpected_eof() {
    for len in [0usize, 1, 10, 20] {
        let data = MAGIC[..len].to_vec();
        let events = pull_all(&data);
        assert!(matches!(events[0], Err(Error::UnexpectedEof)));
    }
}

#[test]
fn truncated_after_magic_is_unexpected_eof() {
    let data = document(7400, &[leaf("A", 0, Vec::new())]);
    let events = pull_all(&data[..30]);
    assert!(matches!(events[0], Ok(FbxEvent::StartFbx(_))));
    assert!(matches!(events[1], Err(Error::UnexpectedEof)));
}

#[test]
fn magic_mismatch_is_invalid_magic() {
    let mut data = document(7400, &[]);
    data[0] = b'k';
    let events = pull_all(&data);
    assert_eq!(events.len(), 1);
    assert!(matches!(events[0], Err(Error::InvalidMagic)));
}

#[test]
fn marker_mismatch_is_only_a_warning() {
    let mut data = document(7400, &[]);
    data[21] = 0x00;
    data[22] = 0x1a;
    let events = pull_all(&data);
    assert_eq!(kinds(&events), vec!["StartFbx(7400)", "EndFbx"]);
}

#[test]
fn children_overrunning_end_offset_is_data_error() {
    let mut data = MAGIC.to_vec();
    data.extend_from_slice(&[0x1a, 0x00, 0xe8, 0x1c, 0x00, 0x00]);
    // The node says that it ends at 45, but its null record ends at 54.
    data.extend(header(false, 45, 0, 0, 1));
    data.push(b'A');
    data.extend(null_header(false));
    data.extend(null_header(false));
    let events = pull_all(&data);
    assert_eq!(kinds(&events)[..2].to_vec(), vec!["StartFbx(7400)", "StartNode(A)"]);
    match &events[2] {
        Err(Error::DataError(message)) => {
            assert_eq!(message, "Node does not end at expected position (expected 45, now at 54)");
            assert!(message.contains("45") && message.contains("54"));
        },
        other => panic!("unexpected {:?}", other),
    }
}

#[test]
fn error_is_returned_again() {
    let mut data = MAGIC.to_vec();
    data.extend_from_slice(&[0x1a, 0x00, 0xe8, 0x1c, 0x00, 0x00]);
    data.extend(header(false, 45, 0, 0, 1));
    data.push(b'A');
    data.extend(null_header(false));
    let mut parser = Parser::new(ParserConfig::new());
    parser.next(&data).unwrap();
    parser.next(&data).unwrap();
    let first = match parser.next(&data) {
        Err(Error::DataError(m)) => m,
        other => panic!("unexpected {:?}", other),
    };
    let pos = parser.pos();
    for _ in 0..3 {
        match parser.next(&data) {
            Err(Error::DataError(m)) => assert_eq!(m, first),
            other => panic!("unexpected {:?}", other),
        }
        assert_eq!(parser.pos(), pos);
    }
    // Another stream does not revive it either.
    let fresh = document(7400, &[]);
    assert!(matches!(parser.next(&fresh), Err(Error::DataError(_))));
}

#[test]
fn invalid_node_name_is_utf8_error() {
    let mut n = leaf("A", 0, Vec::new());
    n.name = vec![b'o', b'k', 0xff];
    let data = document(7400, &[n]);
    let events = pull_all(&data);
    assert!(matches!(events[1], Err(Error::Utf8Error(2))));
}

#[test]
fn fed_parser_matches_in_memory_parser() {
    let data = document(7400, &[leaf("Node", 1, vec![b'Y', 0xff, 0x7f])]);
    let mut parser = Parser::new(ParserConfig::new());
    let mut at = 0usize;
    let mut names = Vec::new();
    loop {
        let ev = match parser.wanted() {
            None => parser.resume(),
            Some(n) => {
                let chunk = &data[at..at + n as usize];
                at += n as usize;
                match parser.feed(chunk) {
                    Some(ev) => ev,
                    None => continue,
                }
            },
        };
        match ev {
            Ok(FbxEvent::EndFbx) => break,
            Ok(FbxEvent::StartNode { name, properties }) => {
                assert_eq!(properties.iter().next().unwrap().get_i16(), Some(0x7fff));
                names.push(name);
            },
            Ok(_) => {},
            Err(e) => panic!("unexpected {:?}", e),
        }
        assert_eq!(parser.pos(), at);
    }
    assert_eq!(names, vec!["Node".to_string()]);
}

#[test]
fn failed_read_is_io_error() {
    let mut parser = Parser::new(ParserConfig::new());
    assert_eq!(parser.wanted(), Some(21));
    let err = Error::Io(IoError { kind: IoErrorKind::Other, message: "broken pipe".to_string() });
    assert!(matches!(parser.fail(err), Err(Error::Io(_))));
    assert_eq!(parser.wanted(), None);
    match parser.resume() {
        Err(Error::Io(e)) => {
            assert_eq!(e.kind, IoErrorKind::Other);
            assert_eq!(e.message, "broken pipe");
        },
        other => panic!("unexpected {:?}", other),
    }
}

#[test]
fn node_properties_can_be_decoded_after_the_cursor_moved_on() {
    let data = document(
        7400,
        &[leaf("P", 1, vec![b'I', 0x2a, 0, 0, 0]), leaf("Q", 1, vec![b'X', 1, 2])],
    );
    let events = pull_all(&data);
    assert_eq!(
        kinds(&events),
        vec!["StartFbx(7400)", "StartNode(P)", "EndNode", "StartNode(Q)", "EndNode", "EndFbx"]
    );
    if let Ok(FbxEvent::StartNode { properties, .. }) = &events[1] {
        let mut it = properties.iter();
        assert_eq!(it.next().unwrap().get_i32(), Some(42));
        assert!(it.next().is_none());
    }
    // An unknown type code stops that node's properties only.
    if let Ok(FbxEvent::StartNode { properties, .. }) = &events[3] {
        assert!(properties.iter().next().is_none());
    }
}

#[test]
fn record_header_layouts() {
    let mut narrow = header(false, 100, 2, 7, 3);
    narrow.extend_from_slice(&[9, 9]);
    let h = fbx_direct::NodeRecordHeader::read_from(&narrow, 7400);
    assert_eq!((h.end_offset, h.num_properties, h.property_byte_len, h.name_len), (100, 2, 7, 3));
    assert!(!h.is_null_record());
    let wide = header(true, 0x1_0000_0000, 5, 6, 4);
    let h = fbx_direct::NodeRecordHeader::read_from(&wide, 7500);
    assert_eq!(
        (h.end_offset, h.num_properties, h.property_byte_len, h.name_len),
        (0x1_0000_0000, 5, 6, 4)
    );
    let h = fbx_direct::NodeRecordHeader::read_from(&null_header(true), 7500);
    assert!(h.is_null_record());
}

fn node_properties(events: &[Result<FbxEvent, Error>], index: usize) -> &fbx_direct::DelayedProperties {
    match &events[index] {
        Ok(FbxEvent::StartNode { properties, .. }) => properties,
        other => panic!("unexpected {:?}", other),
    }
}

#[test]
fn scalar_properties_in_a_document() {
    let mut props = vec![b'I', 0x2a, 0x00, 0x00, 0x00];
    props.extend_from_slice(&[b'L', 0x01, 0, 0, 0, 0, 0, 0, 0]);
    props.extend_from_slice(&[b'F', 0x00, 0x00, 0x80, 0x3f]);
    props.extend_from_slice(&[b'D', 0, 0, 0, 0, 0, 0, 0xf0, 0x3f]);
    let data = document(7400, &[leaf("P", 4, props)]);
    let events = pull_all(&data);
    assert_eq!(kinds(&events), vec!["StartFbx(7400)", "StartNode(P)", "EndNode", "EndFbx"]);
    let p = node_properties(&events, 1);
    assert_eq!(p.num_properties(), 4);
    let mut it = p.iter();
    assert_eq!(it.next().unwrap().get_i32(), Some(42));
    assert_eq!(it.next().unwrap().get_i64(), Some(1));
    assert!(matches!(it.next(), Some(fbx_direct::Property::F32(b)) if f32::from_bits(b) == 1.0));
    assert!(matches!(it.next(), Some(fbx_direct::Property::F64(b)) if f64::from_bits(b) == 1.0));
    assert!(it.next().is_none());
}

#[test]
fn string_properties_in_a_document() {
    let data = document(
        7400,
        &[leaf("A", 1, vec![b'S', 2, 0, 0, 0, b'h', b'i']), leaf("B", 1, vec![b'S', 2, 0, 0, 0, 0xff, 0xfe])],
    );
    let events = pull_all(&data);
    assert_eq!(
        kinds(&events),
        vec!["StartFbx(7400)", "StartNode(A)", "EndNode", "StartNode(B)", "EndNode", "EndFbx"]
    );
    let a = node_properties(&events, 1);
    assert!(matches!(a.iter().next(), Some(fbx_direct::Property::String(Ok("hi")))));
    let b = node_properties(&events, 3);
    match b.iter().next() {
        Some(fbx_direct::Property::String(Err(raw))) => assert_eq!(raw, &[0xff, 0xfe]),
        other => panic!("unexpected {:?}", other),
    }
}

#[test]
fn largest_declared_lengths_stop_iteration() {
    let huge_string = fbx_direct::DelayedProperties::from_vec_u8(vec![b'S', 0xff, 0xff, 0xff, 0xff, b'a'], 7400, 1);
    assert!(huge_string.iter().next().is_none());
    let mut array = vec![b'i', 0xff, 0xff, 0xff, 0xff, 0, 0, 0, 0, 4, 0, 0, 0];
    array.extend_from_slice(&[1, 0, 0, 0]);
    let huge_plain = fbx_direct::DelayedProperties::from_vec_u8(array, 7400, 1);
    assert!(huge_plain.iter().next().is_none());
    let mut s = vec![b'S', 0, 0, 0, 0];
    s.extend_from_slice(&[b'Y', 1, 0]);
    let empty = fbx_direct::DelayedProperties::from_vec_u8(s, 7400, usize::MAX);
    let mut it = empty.iter();
    assert!(matches!(it.next(), Some(fbx_direct::Property::String(Ok("")))));
    assert_eq!(it.next().unwrap().get_i16(), Some(1));
    assert!(it.next().is_none());
}

#[test]
fn short_header_counts_complete_fields() {
    let data = document(7400, &[leaf("A", 0, Vec::new())]);
    let mut parser = Parser::new(ParserConfig::new());
    let short = &data[..27 + 6];
    assert!(matches!(parser.next(short), Ok(FbxEvent::StartFbx(_))));
    assert!(matches!(parser.next(short), Err(Error::UnexpectedEof)));
    assert_eq!(parser.pos(), 27 + 4);
    let data = document(7500, &[leaf("A", 0, Vec::new())]);
    let mut parser = Parser::new(ParserConfig::new());
    let short = &data[..27 + 8 + 8 + 8];
    assert!(matches!(parser.next(short), Ok(FbxEvent::StartFbx(_))));
    assert!(matches!(parser.next(short), Err(Error::UnexpectedEof)));
    assert_eq!(parser.pos(), 27 + 24);
}

#[test]
fn header_is_asked_for_field_by_field() {
    let data = document(7500, &[]);
    let mut parser = Parser::new(ParserConfig::new());
    parser.next(&data).unwrap();
    let mut asked = Vec::new();
    let mut at = parser.pos();
    loop {
        let n = parser.wanted().unwrap();
        asked.push(n);
        let ev = parser.feed(&data[at..at + n as usize]);
        at += n as usize;
        if let Some(ev) = ev {
            assert!(matches!(ev, Ok(FbxEvent::EndFbx)));
            break;
        }
    }
    assert_eq!(asked, vec![8, 8, 8, 1]);
}

#[test]
fn repeated_utf8_error_keeps_prefix_length() {
    let mut n = leaf("A", 0, Vec::new());
    n.name = vec![b'a', b'b', b'c', 0xc3];
    let data = document(7400, &[n]);
    let mut parser = Parser::new(ParserConfig::new());
    parser.next(&data).unwrap();
    for _ in 0..3 {
        assert!(matches!(parser.next(&data), Err(Error::Utf8Error(3))));
    }
}
