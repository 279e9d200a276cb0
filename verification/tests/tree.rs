use nbtedit::nbt::{NbtFile, Tag, TagMessage, TagType};

fn named(b: &mut Vec<u8>, ty: u8, name: &str) {
    b.push(ty);
    b.extend_from_slice(&(name.len() as u16).to_be_bytes());
    b.extend_from_slice(name.as_bytes());
}

/// root(0) { a(1): compound { x(2): byte 1, y(3): byte 2, end(4) }, l(5): list [int(6), int(7)], z(8): byte 3, end(9) }
fn sample() -> NbtFile {
    let mut b = vec![0x0a, 0x00, 0x04];
    b.extend_from_slice(b"root");
    named(&mut b, 10, "a");
    named(&mut b, 1, "x");
    b.push(1);
    named(&mut b, 1, "y");
    b.push(2);
    b.push(0);
    named(&mut b, 9, "l");
    b.push(3);
    b.extend_from_slice(&2i32.to_be_bytes());
    b.extend_from_slice(&10i32.to_be_bytes());
    b.extend_from_slice(&11i32.to_be_bytes());
    named(&mut b, 1, "z");
    b.push(3);
    b.push(0);
    NbtFile::from_bytes(&b).unwrap()
}

fn child_ids(tag: &Tag) -> Vec<usize> {
    match tag.get() {
        TagType::Compound(tags) | TagType::List(tags) => tags.iter().map(|t| t.id()).collect(),
        _ => vec![],
    }
}

#[test]
fn find_looks_through_lists_and_compounds() {
    let file = sample();
    let root = file.get_tag();
    assert_eq!(root.find(0).unwrap().name().unwrap(), "root");
    assert_eq!(root.find(3).unwrap().name().unwrap(), "y");
    assert!(matches!(root.find(7).unwrap().get(), TagType::Int(11)));
    assert_eq!(root.find(8).unwrap().name().unwrap(), "z");
    assert!(root.find(4).is_none());
    assert!(root.find(100).is_none());
}

#[test]
fn find_mut_writes_into_the_tree() {
    let mut file = sample();
    {
        let tag = file.get_mut_tag().find_mut(6).unwrap();
        tag.update(TagMessage::EditTag { name: None, value: Some(TagType::Int(99)) });
    }
    assert!(matches!(file.get_tag().find(6).unwrap().get(), TagType::Int(99)));
    assert!(matches!(file.get_tag().find(7).unwrap().get(), TagType::Int(11)));
    assert!(file.get_mut_tag().find_mut(4).is_none());
}

#[test]
fn update_messages() {
    let mut file = sample();
    let tag = file.get_mut_tag().find_mut(2).unwrap();
    assert!(!tag.is_expanded());
    tag.update(TagMessage::ExpandTag(true));
    assert!(tag.is_expanded());
    tag.update(TagMessage::EditTag { name: Some("renamed".to_string()), value: None });
    assert_eq!(tag.name().unwrap(), "renamed");
    assert!(matches!(tag.get(), TagType::Byte(1)));
    tag.update(TagMessage::RemoveTag);
    assert!(tag.is_hidden());
    assert_eq!(tag.id(), 2);
    tag.update(TagMessage::CreateTag { name: "n".to_string(), tag: TagType::End });
    assert_eq!(tag.name().unwrap(), "renamed");
    assert!(matches!(tag.get(), TagType::Byte(1)));
}

#[test]
fn remove_drops_a_compound_entry() {
    let mut file = sample();
    let root = file.get_mut_tag();
    root.remove(3);
    // y is inside a, which is cleaned on the way.
    assert_eq!(child_ids(root.find(1).unwrap()), vec![2]);
    assert_eq!(child_ids(root), vec![1, 5, 8]);
    root.remove(8);
    assert_eq!(child_ids(root), vec![1, 5]);
}

#[test]
fn remove_does_not_look_into_lists() {
    let mut file = sample();
    let root = file.get_mut_tag();
    root.remove(6);
    assert_eq!(child_ids(root.find(5).unwrap()), vec![6, 7]);
    root.remove(42);
    assert_eq!(child_ids(root), vec![1, 5, 8]);
}

#[test]
fn remove_on_a_non_compound_does_nothing() {
    let mut file = sample();
    let tag = file.get_mut_tag().find_mut(5).unwrap();
    tag.remove(6);
    assert_eq!(child_ids(tag), vec![6, 7]);
}

#[test]
fn clone_keeps_the_tree() {
    let file = sample();
    let copy = file.get_tag().clone();
    assert_eq!(child_ids(&copy), vec![1, 5, 8]);
    assert_eq!(copy.find(3).unwrap().name().unwrap(), "y");
    let default = Tag::default();
    assert_eq!(default.id(), 0);
    assert!(default.name().is_none());
    assert!(matches!(default.get(), TagType::End));
}

#[test]
fn type_names_and_collections() {
    assert_eq!(TagType::End.tag_type_name(), "TAG_End");
    assert_eq!(TagType::Float(0).tag_type_name(), "TAG_Float");
    assert_eq!(TagType::LongArray(vec![]).tag_type_name(), "TAG_LongArray");
    assert_eq!(TagType::Compound(vec![]).tag_type_name(), "TAG_Compound");
    assert!(TagType::ByteArray(vec![]).is_compound());
    assert!(TagType::List(vec![]).is_compound());
    assert!(TagType::IntArray(vec![]).is_compound());
    assert!(!TagType::String("a".to_string()).is_compound());
    assert!(!TagType::Int(1).is_compound());
}

#[test]
fn texts_of_payloads() {
    assert_eq!(TagType::End.text().unwrap(), "");
    assert_eq!(TagType::Byte(-128).text().unwrap(), "-128");
    assert_eq!(TagType::Short(32767).text().unwrap(), "32767");
    assert_eq!(TagType::Int(0).text().unwrap(), "0");
    assert_eq!(TagType::Long(i64::MIN).text().unwrap(), "-9223372036854775808");
    assert_eq!(TagType::Long(i64::MAX).text().unwrap(), "9223372036854775807");
    assert_eq!(TagType::String("Bananrama".to_string()).text().unwrap(), "Bananrama");
    assert_eq!(TagType::IntArray(vec![1, 2, 3]).text().unwrap(), "3 item(s)");
    assert_eq!(TagType::ByteArray(vec![]).text().unwrap(), "0 item(s)");
    assert!(TagType::Float(0).text().is_none());
    assert!(TagType::Double(0).text().is_none());
    let file = sample();
    assert_eq!(file.get_tag().get().text().unwrap(), "3 item(s)");
}
