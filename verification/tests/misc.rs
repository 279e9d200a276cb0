use nbtedit::editor::{AppMessage, CreateData, NbtEdit, ScreenTy, ToggleCreateMode};
use nbtedit::helpers::TagChoice;
use nbtedit::nbt::{NbtFile, TagMessage, TagType};
use nbtedit::path::CurrentPath;
use nbtedit::queue::{ActionQueue, ActionType};
use nbtedit::text::{decimal_string, signed_decimal_string};
use nbtedit::tree::{TreeMessage, TreeNode};

fn crumbs(p: &CurrentPath) -> Vec<(String, String)> {
    p.parts().clone()
}

fn pair(a: &str, b: &str) -> (String, String) {
    (a.to_string(), b.to_string())
}

#[test]
fn breadcrumbs_of_a_path() {
    let p = CurrentPath::new("/home/user/saves").unwrap();
    assert_eq!(p.get(), "/home/user/saves");
    assert_eq!(
        crumbs(&p),
        vec![
            pair("/", "/"),
            pair("home", "/home"),
            pair("user", "/home/user"),
            pair("saves", "/home/user/saves"),
        ]
    );
}

#[test]
fn breadcrumbs_skip_empty_and_dot_components() {
    let p = CurrentPath::new("//a/./b//c/.").unwrap();
    assert_eq!(p.get(), "//a/./b//c/.");
    assert_eq!(
        crumbs(&p),
        vec![pair("/", "/"), pair("a", "/a"), pair("b", "/a/b"), pair("c", "/a/b/c")]
    );
    let root = CurrentPath::new("/").unwrap();
    assert_eq!(crumbs(&root), vec![pair("/", "/")]);
    let unicode = CurrentPath::new("/día/ü").unwrap();
    assert_eq!(crumbs(&unicode), vec![pair("/", "/"), pair("día", "/día"), pair("ü", "/día/ü")]);
}

#[test]
fn relative_paths_are_refused() {
    assert!(CurrentPath::new("home").is_err());
    assert!(CurrentPath::new("").is_err());
    assert!(CurrentPath::new("./a").is_err());
}

#[test]
fn queue_keeps_order() {
    let mut q = ActionQueue::new();
    assert_eq!(q.length(), 0);
    q.add(ActionType::Delete(3));
    q.add(ActionType::Add { id: 1, parent: 0, after: 2 });
    assert_eq!(q.length(), 2);
    let ids: Vec<usize> = q
        .iter()
        .map(|a| match a {
            ActionType::Delete(id) => *id,
            ActionType::Add { id, .. } => *id,
            ActionType::Edit { id, .. } => *id,
        })
        .collect();
    assert_eq!(ids, vec![3, 1]);
    q.clear();
    assert_eq!(q.length(), 0);
}

#[test]
fn choices() {
    assert_eq!(TagChoice::ALL.len(), 13);
    assert_eq!(TagChoice::ALL[0], TagChoice::End);
    assert_eq!(TagChoice::ALL[12], TagChoice::LongArray);
    assert_eq!(TagChoice::Compound.to_string(), "TAG_Compound");
    assert_eq!(TagChoice::ByteArray.to_string(), "TAG_ByteArray");
    let d = CreateData::default();
    assert_eq!(d.name, "");
    assert_eq!(d.tag, TagChoice::End);
}

#[test]
fn decimal_numerals() {
    assert_eq!(decimal_string(0), "0");
    assert_eq!(decimal_string(10), "10");
    assert_eq!(decimal_string(u64::MAX), "18446744073709551615");
    assert_eq!(signed_decimal_string(-1), "-1");
    assert_eq!(signed_decimal_string(i64::MIN), "-9223372036854775808");
}

#[test]
fn tree_node_expansion() {
    let value = 5u8;
    let mut node = TreeNode { children: vec![], tag: &value, text: "n".to_string(), expanded: false };
    node.update(TreeMessage::NodeExpandChanged(true));
    assert!(node.expanded);
    node.update(TreeMessage::NodeSelected);
    assert!(node.expanded);
}

fn sample_file() -> NbtFile {
    let mut b = vec![0x0a, 0x00, 0x01, b'r', 0x01, 0x00, 0x01, b'x', 0x07, 0x00];
    b.push(0);
    NbtFile::from_bytes(&b).unwrap()
}

#[test]
fn editor_flow() {
    let mut e = NbtEdit::new();
    assert_eq!(e.screen, ScreenTy::Welcome);
    assert_eq!(e.path.get(), "/home");
    assert!(!e.can_change_to(ScreenTy::Edit));
    assert!(e.can_change_to(ScreenTy::Open));
    e.update(AppMessage::ChangeScreen(ScreenTy::Open));
    assert_eq!(e.screen, ScreenTy::Open);
    assert!(!e.can_change_to(ScreenTy::Open));

    e.open_file("/saves/level.dat", Some(sample_file()));
    assert_eq!(e.screen, ScreenTy::Edit);
    assert_eq!(e.path.get(), "/saves/level.dat");

    let x = e.level_dat.as_ref().unwrap().get_tag().find(1).unwrap().clone();
    e.select_tag(x, "only for floats".to_string());
    assert_eq!(e.temp_name, "x");
    assert_eq!(e.temp_value, "7");

    e.update(AppMessage::TagEvent(
        1,
        TagMessage::EditTag { name: Some("y".to_string()), value: Some(TagType::Byte(9)) },
    ));
    assert_eq!(e.queue.length(), 1);
    match e.queue.iter().next().unwrap() {
        ActionType::Edit { id, old_name, old_value } => {
            assert_eq!(*id, 1);
            assert_eq!(old_name, "x");
            assert!(matches!(old_value, TagType::Byte(7)));
        }
        _ => panic!(),
    }
    let edited = e.level_dat.as_ref().unwrap().get_tag().find(1).unwrap();
    assert_eq!(edited.name().unwrap(), "y");
    assert!(matches!(edited.get(), TagType::Byte(9)));

    e.update(AppMessage::TagEvent(1, TagMessage::RemoveTag));
    assert_eq!(e.queue.length(), 2);
    assert!(e.selected_tag.is_none());
    assert!(e.level_dat.as_ref().unwrap().get_tag().find(1).unwrap().is_hidden());

    e.update(AppMessage::ToggleCreate(ToggleCreateMode::Tag));
    e.update(AppMessage::InputTagName("new".to_string()));
    e.update(AppMessage::InputTagValue(TagChoice::Int));
    let data = e.create_data.as_ref().unwrap();
    assert_eq!(data.name, "new");
    assert_eq!(data.tag, TagChoice::Int);
    e.update(AppMessage::ToggleCreate(ToggleCreateMode::Off));
    assert!(e.create_data.is_none());

    e.update(AppMessage::Write);
    assert_eq!(e.queue.length(), 0);
    e.update(AppMessage::ChangeDir("/tmp".to_string()));
    assert_eq!(e.path.get(), "/tmp");
    assert_eq!(ScreenTy::Save.label(), "Save");
}

fn entry(name: &str, is_dir: bool) -> (String, String, bool) {
    (name.to_string(), format!("/d/{}", name), is_dir)
}

#[test]
fn directory_listing() {
    let entries = vec![
        entry("level.dat", false),
        entry(".hidden", true),
        entry("Zeta", true),
        entry("notes.txt", false),
        entry("alpha", true),
        entry("DATA.NBT", false),
        entry("beta.Dat", false),
    ];
    let shown = nbtedit::listing::list_entries(&entries, false);
    let names: Vec<&str> = shown.iter().map(|e| e.0.as_str()).collect();
    assert_eq!(names, vec!["alpha", "beta.Dat", "DATA.NBT", "level.dat", "Zeta"]);
    assert_eq!(shown[0].1, "/d/alpha");
    let all = nbtedit::listing::list_entries(&entries, true);
    let names: Vec<&str> = all.iter().map(|e| e.0.as_str()).collect();
    assert_eq!(names, vec![".hidden", "alpha", "beta.Dat", "DATA.NBT", "level.dat", "Zeta"]);
}

#[test]
fn directory_listing_is_stable() {
    let entries = vec![
        ("B".to_string(), "/1".to_string(), true),
        ("a".to_string(), "/2".to_string(), true),
        ("b".to_string(), "/3".to_string(), true),
        ("A".to_string(), "/4".to_string(), true),
    ];
    let shown = nbtedit::listing::list_entries(&entries, false);
    let paths: Vec<&str> = shown.iter().map(|e| e.1.as_str()).collect();
    assert_eq!(paths, vec!["/2", "/4", "/1", "/3"]);
}
