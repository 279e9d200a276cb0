use std::io::Write;

use nbtedit::error::{ParseError, ParseFailure};
use nbtedit::gzip::first_window;
use nbtedit::helpers::{is_nbt_header, is_save_start};
use nbtedit::nbt::parser::ParserData;
use nbtedit::nbt::{NbtFile, TagType};

fn hello_world() -> Vec<u8> {
    let mut b = vec![0x0a, 0x00, 0x0b];
    b.extend_from_slice(b"hello world");
    b.extend_from_slice(&[0x08, 0x00, 0x04]);
    b.extend_from_slice(b"name");
    b.extend_from_slice(&[0x00, 0x09]);
    b.extend_from_slice(b"Bananrama");
    b.push(0x00);
    b
}

fn named(b: &mut Vec<u8>, ty: u8, name: &str) {
    b.push(ty);
    b.extend_from_slice(&(name.len() as u16).to_be_bytes());
    b.extend_from_slice(name.as_bytes());
}

#[test]
fn parses_hello_world() {
    let file = NbtFile::from_bytes(&hello_world()).unwrap();
    let root = file.get_tag();
    assert_eq!(root.id(), 0);
    assert_eq!(root.name().unwrap(), "hello world");
    match root.get() {
        TagType::Compound(tags) => {
            assert_eq!(tags.len(), 1);
            assert_eq!(tags[0].id(), 1);
            assert_eq!(tags[0].name().unwrap(), "name");
            match tags[0].get() {
                TagType::String(s) => assert_eq!(s, "Bananrama"),
                other => panic!("unexpected payload {:?}", other),
            }
        }
        other => panic!("unexpected payload {:?}", other),
    }
}

#[test]
fn parses_every_scalar_type() {
    let mut b = vec![0x0a, 0x00, 0x00];
    named(&mut b, 1, "b");
    b.push(0xff);
    named(&mut b, 2, "s");
    b.extend_from_slice(&(-2i16).to_be_bytes());
    named(&mut b, 3, "i");
    b.extend_from_slice(&(-70000i32).to_be_bytes());
    named(&mut b, 4, "l");
    b.extend_from_slice(&i64::MIN.to_be_bytes());
    named(&mut b, 5, "f");
    b.extend_from_slice(&1.5f32.to_be_bytes());
    named(&mut b, 6, "d");
    b.extend_from_slice(&(-0.25f64).to_be_bytes());
    b.push(0);
    let file = NbtFile::from_bytes(&b).unwrap();
    let TagType::Compound(tags) = file.get_tag().get() else { panic!() };
    assert!(matches!(tags[0].get(), TagType::Byte(-1)));
    assert!(matches!(tags[1].get(), TagType::Short(-2)));
    assert!(matches!(tags[2].get(), TagType::Int(-70000)));
    assert!(matches!(tags[3].get(), TagType::Long(i64::MIN)));
    match tags[4].get() {
        TagType::Float(bits) => assert_eq!(f32::from_bits(*bits), 1.5),
        _ => panic!(),
    }
    match tags[5].get() {
        TagType::Double(bits) => assert_eq!(f64::from_bits(*bits), -0.25),
        _ => panic!(),
    }
    let ids: Vec<usize> = tags.iter().map(|t| t.id()).collect();
    assert_eq!(ids, vec![1, 2, 3, 4, 5, 6]);
}

#[test]
fn parses_arrays_and_lists() {
    let mut b = vec![0x0a, 0x00, 0x00];
    named(&mut b, 7, "bytes");
    b.extend_from_slice(&3i32.to_be_bytes());
    b.extend_from_slice(&[1, 0x80, 0xff]);
    named(&mut b, 11, "ints");
    b.extend_from_slice(&2i32.to_be_bytes());
    b.extend_from_slice(&7i32.to_be_bytes());
    b.extend_from_slice(&(-7i32).to_be_bytes());
    named(&mut b, 12, "longs");
    b.extend_from_slice(&1i32.to_be_bytes());
    b.extend_from_slice(&(1i64 << 40).to_be_bytes());
    named(&mut b, 9, "list");
    b.push(3);
    b.extend_from_slice(&2i32.to_be_bytes());
    b.extend_from_slice(&10i32.to_be_bytes());
    b.extend_from_slice(&20i32.to_be_bytes());
    b.push(0);
    let file = NbtFile::from_bytes(&b).unwrap();
    let TagType::Compound(tags) = file.get_tag().get() else { panic!() };
    match tags[0].get() {
        TagType::ByteArray(v) => assert_eq!(v, &vec![1i8, -128, -1]),
        _ => panic!(),
    }
    match tags[1].get() {
        TagType::IntArray(v) => assert_eq!(v, &vec![7, -7]),
        _ => panic!(),
    }
    match tags[2].get() {
        TagType::LongArray(v) => assert_eq!(v, &vec![1i64 << 40]),
        _ => panic!(),
    }
    match tags[3].get() {
        TagType::List(items) => {
            assert_eq!(items.len(), 2);
            assert!(items[0].name().is_none());
            assert!(matches!(items[0].get(), TagType::Int(10)));
            assert!(matches!(items[1].get(), TagType::Int(20)));
            assert_eq!(items[0].id(), 5);
            assert_eq!(items[1].id(), 6);
        }
        _ => panic!(),
    }
}

#[test]
fn nested_compound_ids_follow_reading_order() {
    let mut b = vec![0x0a, 0x00, 0x00];
    named(&mut b, 10, "inner");
    named(&mut b, 1, "x");
    b.push(5);
    b.push(0);
    named(&mut b, 1, "y");
    b.push(6);
    b.push(0);
    let file = NbtFile::from_bytes(&b).unwrap();
    let root = file.get_tag();
    // inner = 1, x = 2, inner's end = 3, y = 4
    assert_eq!(root.find(1).unwrap().name().unwrap(), "inner");
    assert_eq!(root.find(2).unwrap().name().unwrap(), "x");
    assert!(root.find(3).is_none());
    assert_eq!(root.find(4).unwrap().name().unwrap(), "y");
}

#[test]
fn reports_errors() {
    assert!(matches!(
        NbtFile::from_bytes(&vec![]),
        Err(ParseFailure::Rejected(ParseError::EndOfBuffer))
    ));
    assert!(matches!(
        NbtFile::from_bytes(&vec![0x0d]),
        Err(ParseFailure::Rejected(ParseError::InvalidTagType))
    ));
    assert!(matches!(
        NbtFile::from_bytes(&vec![0x01, 0x00, 0x00, 0x05]),
        Err(ParseFailure::Rejected(ParseError::InvalidRootTag))
    ));
    let mut truncated = hello_world();
    truncated.pop();
    assert!(matches!(
        NbtFile::from_bytes(&truncated),
        Err(ParseFailure::Rejected(ParseError::EndOfBuffer))
    ));
    let bad_utf8 = vec![0x0a, 0x00, 0x01, 0xff, 0x00];
    assert!(matches!(
        NbtFile::from_bytes(&bad_utf8),
        Err(ParseFailure::Rejected(ParseError::InvalidPayload))
    ));
    let mut bad_entry = vec![0x0a, 0x00, 0x00];
    bad_entry.push(0x0e);
    assert!(matches!(
        NbtFile::from_bytes(&bad_entry),
        Err(ParseFailure::Rejected(ParseError::InvalidTagType))
    ));
}

#[test]
fn reports_inputs_the_reader_cannot_go_on_with() {
    let mut unknown = vec![0x0a, 0x00, 0x00];
    named(&mut unknown, 9, "l");
    unknown.push(0x0d);
    unknown.extend_from_slice(&1i32.to_be_bytes());
    assert!(matches!(NbtFile::from_bytes(&unknown), Err(ParseFailure::UnknownListType(0x0d))));

    let mut negative = vec![0x0a, 0x00, 0x00];
    named(&mut negative, 7, "a");
    negative.extend_from_slice(&(-1i32).to_be_bytes());
    assert!(matches!(NbtFile::from_bytes(&negative), Err(ParseFailure::NegativeLength(-1))));
}

#[test]
fn empty_list_of_unknown_type_is_fine() {
    let mut b = vec![0x0a, 0x00, 0x00];
    named(&mut b, 9, "l");
    b.push(0x0d);
    b.extend_from_slice(&0i32.to_be_bytes());
    b.push(0);
    assert!(NbtFile::from_bytes(&b).is_ok());
}

#[test]
fn cursor_reads_bytes_and_types() {
    let bytes = vec![0x03, 0x20, 0x00, 0x02, b'h', b'i'];
    let mut p = ParserData::from(&bytes);
    assert_eq!(p.get_type().unwrap(), 3);
    assert!(matches!(p.get_type(), Err(ParseError::InvalidTagType)));
    assert_eq!(p.read_utf8_string().unwrap(), "hi");
    assert!(matches!(p.advance(), Err(ParseError::EndOfBuffer)));
}

#[test]
fn header_check() {
    let whole = hello_world();
    assert_eq!(is_nbt_header(&whole).unwrap(), true);
    assert_eq!(is_nbt_header(&whole[..10].to_vec()).unwrap(), true);
    assert_eq!(is_nbt_header(&vec![0x01, 0x02]).unwrap(), false);
    assert_eq!(is_nbt_header(&vec![]).unwrap(), true);
}

#[test]
fn reads_gzip_files() {
    let mut encoder = flate2::write::GzEncoder::new(Vec::new(), flate2::Compression::default());
    encoder.write_all(&hello_world()).unwrap();
    let compressed = encoder.finish().unwrap();
    let file = NbtFile::from_gzip(&compressed).unwrap();
    assert_eq!(file.get_tag().name().unwrap(), "hello world");
    assert!(matches!(
        NbtFile::from_gzip(&hello_world()),
        Err(ParseFailure::Rejected(ParseError::IOError(_)))
    ));
}

#[test]
fn parse_leaves_trailing_bytes_unread() {
    let bytes = vec![0x0a, 0x00, 0x01, b'r', 0x00, 0xff];
    let mut p = ParserData::from(&bytes);
    let file = p.parse().unwrap();
    assert_eq!(file.get_tag().name().unwrap(), "r");
    assert_eq!(p.advance().unwrap(), 0xff);
    assert!(matches!(p.advance(), Err(ParseError::EndOfBuffer)));
}

#[test]
fn bad_type_in_compound_stops_just_after_it() {
    let bytes = vec![0x0a, 0x00, 0x00, 0x0d, 0x00];
    let mut p = ParserData::from(&bytes);
    assert!(matches!(p.parse(), Err(ParseFailure::Rejected(ParseError::InvalidTagType))));
    assert_eq!(p.advance().unwrap(), 0x00);
}

#[test]
fn running_out_of_bytes_takes_them_all() {
    let bytes = vec![0x0a, 0x00, 0x00, 0x03, 0x00, 0x01, b'x', 0x00, 0x00];
    let mut p = ParserData::from(&bytes);
    assert!(matches!(p.parse(), Err(ParseFailure::Rejected(ParseError::EndOfBuffer))));
    assert!(matches!(p.advance(), Err(ParseError::EndOfBuffer)));
}

#[test]
fn save_start_of_gzip_and_plain_files() {
    let mut encoder = flate2::write::GzEncoder::new(Vec::new(), flate2::Compression::default());
    encoder.write_all(&hello_world()).unwrap();
    let compressed = encoder.finish().unwrap();
    let window = first_window(&compressed);
    assert_eq!(window.len(), 32);
    assert_eq!(window[0], 0x0a);
    assert_eq!(is_save_start(&compressed).unwrap(), true);
    assert_eq!(is_save_start(&hello_world()).unwrap(), true);
    let short = vec![0x0a, 0x00, 0x00, 0x00];
    let raw = first_window(&short);
    assert_eq!(raw.len(), 32);
    assert_eq!(&raw[..4], &short[..]);
    assert!(raw[4..].iter().all(|b| *b == 0));
    assert_eq!(is_save_start(&short).unwrap(), true);
    assert_eq!(is_save_start(&vec![0x01, 0x02, 0x03]).unwrap(), false);
}
