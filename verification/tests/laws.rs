use nbtedit::helpers::{is_nbt_header, TagChoice};
use nbtedit::nbt::{NbtFile, TagMessage, TagType};
use nbtedit::path::CurrentPath;

fn file_bytes() -> Vec<u8> {
    let mut b = vec![0x0a, 0x00, 0x01, b'r'];
    b.extend_from_slice(&[0x09, 0x00, 0x01, b'l', 0x0a]);
    b.extend_from_slice(&2i32.to_be_bytes());
    b.extend_from_slice(&[0x01, 0x00, 0x01, b'a', 0x05, 0x00]);
    b.extend_from_slice(&[0x08, 0x00, 0x01, b's', 0x00, 0x02, b'h', b'i', 0x00]);
    b.push(0x00);
    b
}

fn all_ids(t: &nbtedit::nbt::Tag, out: &mut Vec<usize>) {
    out.push(t.id());
    if let TagType::Compound(ts) | TagType::List(ts) = t.get() {
        for c in ts {
            all_ids(c, out);
        }
    }
}

fn all_plain(t: &nbtedit::nbt::Tag) -> bool {
    let below = match t.get() {
        TagType::List(ts) | TagType::Compound(ts) => ts.iter().all(all_plain),
        _ => true,
    };
    !t.is_expanded() && !t.is_hidden() && below
}

#[test]
fn trailing_bytes_are_ignored() {
    let mut with_extra = file_bytes();
    with_extra.extend_from_slice(&[0xde, 0xad, 0xbe, 0xef]);
    let a = NbtFile::from_bytes(&file_bytes()).unwrap();
    let b = NbtFile::from_bytes(&with_extra).unwrap();
    let (mut ia, mut ib) = (vec![], vec![]);
    all_ids(a.get_tag(), &mut ia);
    all_ids(b.get_tag(), &mut ib);
    assert_eq!(ia, ib);
}

#[test]
fn every_prefix_of_a_file_passes_the_header_check() {
    let bytes = file_bytes();
    for k in 0..=bytes.len() {
        assert_eq!(is_nbt_header(&bytes[..k].to_vec()).unwrap(), true);
    }
}

#[test]
fn parsed_ids_are_distinct_and_increasing() {
    let file = NbtFile::from_bytes(&file_bytes()).unwrap();
    let mut ids = vec![];
    all_ids(file.get_tag(), &mut ids);
    assert_eq!(ids[0], 0);
    assert!(ids.windows(2).all(|w| w[0] < w[1]));
    for id in &ids {
        assert_eq!(file.get_tag().find(*id).unwrap().id(), *id);
    }
}

#[test]
fn find_gives_back_what_was_written() {
    let mut file = NbtFile::from_bytes(&file_bytes()).unwrap();
    let mut ids = vec![];
    all_ids(file.get_tag(), &mut ids);
    let id = ids[ids.len() - 1];
    file.get_mut_tag().find_mut(id).unwrap().update(TagMessage::EditTag {
        name: Some("t".to_string()),
        value: Some(TagType::String("bye".to_string())),
    });
    let found = file.get_tag().find(id).unwrap();
    assert_eq!(found.name().unwrap(), "t");
    assert_eq!(found.get().text().unwrap(), "bye");
}

#[test]
fn removing_an_absent_id_changes_nothing() {
    let mut file = NbtFile::from_bytes(&file_bytes()).unwrap();
    let mut before = vec![];
    all_ids(file.get_tag(), &mut before);
    file.get_mut_tag().remove(1000);
    let mut after = vec![];
    all_ids(file.get_tag(), &mut after);
    assert_eq!(before, after);
}

#[test]
fn breadcrumbs_lead_back() {
    let p = CurrentPath::new("/srv//worlds/./alpha/level.dat").unwrap();
    let parts = p.parts().clone();
    for k in 1..parts.len() {
        let q = CurrentPath::new(&parts[k].1).unwrap();
        assert_eq!(q.parts().clone(), parts[..=k].to_vec());
    }
}

#[test]
fn choice_names_are_type_names() {
    let pairs = [
        (TagChoice::End, TagType::End),
        (TagChoice::Byte, TagType::Byte(0)),
        (TagChoice::Float, TagType::Float(0)),
        (TagChoice::String, TagType::String(String::new())),
        (TagChoice::List, TagType::List(vec![])),
        (TagChoice::IntArray, TagType::IntArray(vec![])),
    ];
    for (choice, tag) in pairs.iter() {
        assert_eq!(choice.to_string(), tag.tag_type_name());
    }
}

#[test]
fn a_removed_compound_entry_is_gone() {
    // root(0) { c(1): compound { x(2): byte, end(3) }, y(4): byte, end(5) }
    let mut b = vec![0x0a, 0x00, 0x00];
    b.extend_from_slice(&[0x0a, 0x00, 0x01, b'c']);
    b.extend_from_slice(&[0x01, 0x00, 0x01, b'x', 0x07, 0x00]);
    b.extend_from_slice(&[0x01, 0x00, 0x01, b'y', 0x08, 0x00]);
    let mut file = NbtFile::from_bytes(&b).unwrap();
    assert!(file.get_tag().find(2).is_some());
    file.get_mut_tag().remove(2);
    assert!(file.get_tag().find(2).is_none());
    assert!(file.get_tag().find(4).is_some());
    file.get_mut_tag().remove(1);
    assert!(file.get_tag().find(1).is_none());
    let mut ids = vec![];
    all_ids(file.get_tag(), &mut ids);
    assert_eq!(ids, vec![0, 4]);
}

#[test]
fn choice_names_are_distinct() {
    let names: Vec<String> = TagChoice::ALL.iter().map(|c| c.to_string()).collect();
    for i in 0..names.len() {
        for j in 0..names.len() {
            assert_eq!(i == j, names[i] == names[j]);
        }
    }
    assert_eq!(TagChoice::ALL[7].to_string(), "TAG_ByteArray");
    assert_eq!(TagType::Int(5).tag_type_name(), "TAG_Int");
    assert_eq!(TagType::ByteArray(vec![1]).tag_type_name(), "TAG_ByteArray");
}

#[test]
fn a_message_twice_is_a_message_once() {
    let mut file = NbtFile::from_bytes(&file_bytes()).unwrap();
    let message = TagMessage::EditTag { name: Some("z".to_string()), value: Some(TagType::Int(3)) };
    let once = {
        let tag = file.get_mut_tag().find_mut(1).unwrap();
        tag.update(message.clone());
        (tag.name().cloned(), tag.get().text(), tag.is_expanded(), tag.is_hidden())
    };
    let tag = file.get_mut_tag().find_mut(1).unwrap();
    tag.update(message.clone());
    assert_eq!((tag.name().cloned(), tag.get().text(), tag.is_expanded(), tag.is_hidden()), once);
    tag.update(TagMessage::RemoveTag);
    tag.update(TagMessage::RemoveTag);
    assert!(tag.is_hidden());
}

#[test]
fn compound_entries_are_named_and_fresh() {
    let file = NbtFile::from_bytes(&file_bytes()).unwrap();
    if let TagType::Compound(tags) = file.get_tag().get() {
        let mut last = 0;
        for t in tags {
            assert!(t.name().is_some());
            assert!(!t.is_expanded() && !t.is_hidden());
            assert!(t.id() > last);
            last = t.id();
        }
    } else {
        panic!()
    }
}

#[test]
fn parsed_tags_are_plain_at_every_depth() {
    let file = NbtFile::from_bytes(&file_bytes()).unwrap();
    let root = file.get_tag();
    assert!(root.name().is_some());
    assert!(matches!(root.get(), TagType::Compound(_)));
    assert!(all_plain(root));
}

#[test]
fn find_mut_without_writing_changes_nothing() {
    let mut file = NbtFile::from_bytes(&file_bytes()).unwrap();
    let mut before = vec![];
    all_ids(file.get_tag(), &mut before);
    assert!(file.get_mut_tag().find_mut(2).is_some());
    assert!(file.get_mut_tag().find_mut(99).is_none());
    let mut after = vec![];
    all_ids(file.get_tag(), &mut after);
    assert_eq!(before, after);
    assert_eq!(file.get_tag().find(2).unwrap().id(), 2);
}

#[test]
fn choices_follow_type_bytes() {
    let names = [
        "TAG_End", "TAG_Byte", "TAG_Short", "TAG_Int", "TAG_Long", "TAG_Float", "TAG_Double",
        "TAG_ByteArray", "TAG_String", "TAG_List", "TAG_Compound", "TAG_IntArray", "TAG_LongArray",
    ];
    for (k, name) in names.iter().enumerate() {
        assert_eq!(TagChoice::ALL[k].to_string(), *name);
    }
}
