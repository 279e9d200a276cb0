use vstd::prelude::*;

use crate::helpers::TagChoice;
use crate::model::{find_tag, replace_found, value_text, TagView};
use crate::nbt::{updated, NbtFile, Tag, TagMessage, TagType};
use crate::path::{breadcrumbs, home_components, is_absolute, path_components, CurrentPath};
use crate::queue::{ActionQueue, ActionType};

verus! {

/// The screens of the editor.
#[derive(Debug, Clone, Copy, PartialEq, Eq, Structural)]
pub enum ScreenTy {
    Welcome,
    Open,
    Save,
    Edit,
    Settings,
    Help,
}

/// What is being created: nothing (`Off`), a named tag, or an item of a list whose
/// items have the payload type of the given one.
#[derive(Debug, Clone)]
pub enum ToggleCreateMode {
    Off,
    Tag,
    ListItem(TagType),
}

/// The form for a new tag: its name and its type.
#[derive(Debug, Clone)]
pub struct CreateData {
    pub name: String,
    pub tag: TagChoice,
}

impl Default for CreateData {
    fn default() -> (r: Self)
        ensures
            r.name@ == Seq::<char>::empty(),
            r.tag == TagChoice::End,
    {
        CreateData { name: String::new(), tag: TagChoice::End }
    }
}

/// What the user did in the editor.
#[derive(Debug, Clone)]
pub enum AppMessage {
    ChangeScreen(ScreenTy),
    ChangeDir(String),
    TryOpenFile(String),
    TagEvent(usize, TagMessage),
    InputName(String),
    InputValue(String),
    ToggleCreate(ToggleCreateMode),
    InputTagName(String),
    InputTagValue(TagChoice),
    InputAction(ActionType),
    Write,
    Pass,
}

/// The state of the editor.
pub struct NbtEdit {
    pub screen: ScreenTy,
    pub create_screen: ToggleCreateMode,
    pub create_data: Option<CreateData>,
    pub selected_tag: Option<Tag>,
    pub temp_name: String,
    pub temp_value: String,
    pub path: CurrentPath,
    pub level_dat: Option<NbtFile>,
    pub queue: ActionQueue,
    pub selected_action: Option<ActionType>,
}

/// A path that the editor can browse to: absolute, without `..`.
pub open spec fn browsable(path: Seq<char>) -> bool {
    is_absolute(path) && !path_components(path).contains(seq!['.', '.'])
}

/// The open file holds a tag with identifier `id`.
pub open spec fn has_tag(level_dat: Option<NbtFile>, id: usize) -> bool {
    match level_dat {
        Some(file) => find_tag(file@, id) is Some,
        None => false,
    }
}

/// The open file after the tag with identifier `id` got `message`.
pub open spec fn tag_updated(before: Option<NbtFile>, after: Option<NbtFile>, id: usize, message: TagMessage) -> bool {
    match (before, after) {
        (Some(b), Some(a)) => a@ == replace_found(b@, id, updated(find_tag(b@, id).unwrap(), message)),
        _ => false,
    }
}

/// The editor can handle `message` directly: it is not one of the two that
/// need the caller's help (opening a file, selecting a tag), and what it
/// refers to exists.
pub open spec fn can_handle(editor: NbtEdit, message: AppMessage) -> bool {
    match message {
        AppMessage::ChangeScreen(s) => s != ScreenTy::Welcome,
        AppMessage::ChangeDir(p) => browsable(p@),
        AppMessage::TryOpenFile(_) => false,
        AppMessage::TagEvent(id, m) => match m {
            TagMessage::SelectTag(_, _) => false,
            TagMessage::EditTag { .. } => {
                &&& editor.selected_tag matches Some(t)
                &&& t@.name is Some
                &&& has_tag(editor.level_dat, id)
            },
            _ => has_tag(editor.level_dat, id),
        },
        AppMessage::InputTagName(_) => editor.create_data is Some,
        AppMessage::InputTagValue(_) => editor.create_data is Some,
        AppMessage::Write => editor.level_dat is Some,
        _ => true,
    }
}

/// The editor `a` is the editor `b` after handling `message`.
pub open spec fn handled(b: NbtEdit, a: NbtEdit, message: AppMessage) -> bool {
    match message {
        AppMessage::ChangeScreen(s) => a == NbtEdit { screen: s, ..b },
        AppMessage::ChangeDir(p) => {
            &&& a == NbtEdit { path: a.path, ..b }
            &&& a.path.path() == p@
            &&& a.path.crumbs() == breadcrumbs(p@)
        },
        AppMessage::TagEvent(id, m) => match m {
            TagMessage::RemoveTag => {
                &&& a == NbtEdit { queue: a.queue, selected_tag: None, level_dat: a.level_dat, ..b }
                &&& a.queue@ == b.queue@.push(ActionType::Delete(id))
                &&& tag_updated(b.level_dat, a.level_dat, id, m)
            },
            TagMessage::EditTag { .. } => {
                &&& a == NbtEdit { queue: a.queue, level_dat: a.level_dat, ..b }
                &&& a.queue@.len() == b.queue@.len() + 1
                &&& a.queue@.subrange(0, b.queue@.len() as int) == b.queue@
                &&& a.queue@.last() matches ActionType::Edit { id: edited, old_name, old_value }
                &&& edited == id
                &&& Some(old_name@) == b.selected_tag.unwrap()@.name
                &&& old_value@ == b.selected_tag.unwrap()@.value
                &&& tag_updated(b.level_dat, a.level_dat, id, m)
            },
            _ => {
                &&& a == NbtEdit { level_dat: a.level_dat, ..b }
                &&& tag_updated(b.level_dat, a.level_dat, id, m)
            },
        },
        AppMessage::InputName(n) => a == NbtEdit { temp_name: n, ..b },
        AppMessage::InputValue(v) => a == NbtEdit { temp_value: v, ..b },
        AppMessage::ToggleCreate(mode) => {
            &&& a == NbtEdit { create_screen: mode, create_data: a.create_data, ..b }
            &&& (mode is Off ==> a.create_data is None)
            &&& (!(mode is Off) ==> (a.create_data matches Some(d) && d.name@ == Seq::<char>::empty()
                && d.tag == TagChoice::End))
        },
        AppMessage::InputTagName(n) => {
            &&& a == NbtEdit { create_data: a.create_data, ..b }
            &&& a.create_data == Some(CreateData { name: n, ..b.create_data.unwrap() })
        },
        AppMessage::InputTagValue(c) => {
            &&& a == NbtEdit { create_data: a.create_data, ..b }
            &&& a.create_data == Some(CreateData { tag: c, ..b.create_data.unwrap() })
        },
        AppMessage::InputAction(x) => a == NbtEdit { selected_action: Some(x), ..b },
        AppMessage::Write => {
            &&& a == NbtEdit { queue: a.queue, ..b }
            &&& a.queue@ == Seq::<ActionType>::empty()
        },
        _ => a == b,
    }
}

impl ScreenTy {
    /// The text of the button that opens the screen; the welcome screen has
    /// none.
    pub fn label(&self) -> (r: &'static str)
        requires
            *self != ScreenTy::Welcome,
        ensures
            r@ == match *self {
                ScreenTy::Open => "Open"@,
                ScreenTy::Save => "Save"@,
                ScreenTy::Edit => "Edit"@,
                ScreenTy::Settings => "Settings"@,
                _ => "Help"@,
            },
    {
        match self {
            ScreenTy::Open => "Open",
            ScreenTy::Save => "Save",
            ScreenTy::Edit => "Edit",
            ScreenTy::Settings => "Settings",
            _ => "Help",
        }
    }
}

impl NbtEdit {
    /// The editor at start: the welcome screen, browsing `/home`, no file.
    pub fn new() -> (r: Self)
        ensures
            r.screen == ScreenTy::Welcome,
            r.create_screen is Off,
            r.create_data is None,
            r.selected_tag is None,
            r.temp_name@ == Seq::<char>::empty(),
            r.temp_value@ == Seq::<char>::empty(),
            r.path.path() == "/home"@,
            r.path.crumbs() == breadcrumbs("/home"@),
            r.level_dat is None,
            r.queue@ == Seq::<ActionType>::empty(),
            r.selected_action is None,
    {
        proof {
            home_components();
            reveal_strlit("home");
            assert(!seq!["home"@].contains(seq!['.', '.'])) by {
                assert(seq!["home"@][0].len() != seq!['.', '.'].len());
            }
        }
        let path = CurrentPath::new("/home").unwrap();
        NbtEdit {
            screen: ScreenTy::Welcome,
            create_screen: ToggleCreateMode::Off,
            create_data: None,
            selected_tag: None,
            temp_name: String::new(),
            temp_value: String::new(),
            path,
            level_dat: None,
            queue: ActionQueue::new(),
            selected_action: None,
        }
    }

    /// Whether the button of `screen` can be pressed: it is not the current
    /// screen, and the edit screen needs an open file.
    pub fn can_change_to(&self, screen: ScreenTy) -> (r: bool)
        ensures
            r == (self.screen != screen && (screen == ScreenTy::Edit ==> self.level_dat is Some)),
    {
        match screen {
            ScreenTy::Edit => self.level_dat.is_some() && self.screen != screen,
            _ => self.screen != screen,
        }
    }

    /// Selects a tag for editing: its name, or nothing, goes into the name
    /// field, the text of its payload into the value field, and the
    /// creation form closes. `float_text` is the text of a floating-point
    /// payload, which the caller writes; it is used for those payloads only.
    pub fn select_tag(&mut self, tag: Tag, float_text: String)
        ensures
            final(self).temp_name@ == match tag@.name {
                Some(n) => n,
                None => Seq::<char>::empty(),
            },
            final(self).temp_value@ == match value_text(tag@.value) {
                Some(t) => t,
                None => float_text@,
            },
            final(self).create_screen is Off,
            final(self).selected_tag == Some(tag),
            final(self).screen == old(self).screen,
            final(self).create_data == old(self).create_data,
            final(self).path == old(self).path,
            final(self).level_dat == old(self).level_dat,
            final(self).queue == old(self).queue,
            final(self).selected_action == old(self).selected_action,
    {
        self.temp_name = match tag.name() {
            Some(n) => n.clone(),
            None => String::new(),
        };
        self.temp_value = match tag.get().text() {
            Some(t) => t,
            None => float_text,
        };
        self.create_screen = ToggleCreateMode::Off;
        self.selected_tag = Some(tag);
    }

    /// Gives `message` to the tag with identifier `id` of the open file.
    fn apply_to_tag(&mut self, id: usize, message: TagMessage)
        requires
            has_tag(old(self).level_dat, id),
        ensures
            *final(self) == (NbtEdit { level_dat: final(self).level_dat, ..*old(self) }),
            tag_updated(old(self).level_dat, final(self).level_dat, id, message),
    {
        match &mut self.level_dat {
            Some(file) => {
                let root = file.get_mut_tag();
                match root.find_mut(id) {
                    Some(tag) => tag.update(message),
                    None => {},
                }
            },
            None => {},
        }
    }

    /// Handles a message other than opening a file or selecting a tag.
    /// Removing or editing a tag is recorded in the queue of changes, with
    /// the name and payload the selected tag had before an edit; writing
    /// empties the queue.
    pub fn update(&mut self, message: AppMessage)
        requires
            can_handle(*old(self), message),
        ensures
            handled(*old(self), *final(self), message),
    {
        match message {
            AppMessage::ChangeScreen(s) => self.screen = s,
            AppMessage::ChangeDir(path) => self.path = CurrentPath::new(path.as_str()).unwrap(),
            AppMessage::TryOpenFile(_) => {},
            AppMessage::TagEvent(id, m) => match m {
                TagMessage::SelectTag(_, _) => {},
                TagMessage::RemoveTag => {
                    self.queue.add(ActionType::Delete(id));
                    self.selected_tag = None;
                    self.apply_to_tag(id, TagMessage::RemoveTag);
                },
                TagMessage::EditTag { name, value } => {
                    let (old_name, old_value) = match &self.selected_tag {
                        Some(selected) => (selected.name().unwrap().clone(), selected.get().clone()),
                        None => (String::new(), TagType::End),
                    };
                    let ghost before = self.queue@;
                    self.queue.add(ActionType::Edit { id, old_name, old_value });
                    proof {
                        assert(self.queue@.subrange(0, before.len() as int) =~= before);
                    }
                    self.apply_to_tag(id, TagMessage::EditTag { name, value });
                },
                other => self.apply_to_tag(id, other),
            },
            AppMessage::InputName(name) => self.temp_name = name,
            AppMessage::InputValue(value) => self.temp_value = value,
            AppMessage::ToggleCreate(mode) => {
                match mode {
                    ToggleCreateMode::Off => self.create_data = None,
                    _ => self.create_data = Some(CreateData::default()),
                }
                self.create_screen = mode;
            },
            AppMessage::InputTagName(name) => match &mut self.create_data {
                Some(data) => data.name = name,
                None => {},
            },
            AppMessage::InputTagValue(choice) => match &mut self.create_data {
                Some(data) => data.tag = choice,
                None => {},
            },
            AppMessage::InputAction(action) => self.selected_action = Some(action),
            AppMessage::Write => self.queue.clear(),
            AppMessage::Pass => {},
        }
    }

    /// Browses to `path`; `file` is what was read there, if it is an NBT
    /// file, and is then opened on the edit screen.
    pub fn open_file(&mut self, path: &str, file: Option<NbtFile>)
        requires
            browsable(path@),
        ensures
            final(self).path.path() == path@,
            final(self).path.crumbs() == breadcrumbs(path@),
            file is Some ==> final(self).screen == ScreenTy::Edit && final(self).level_dat == file,
            file is None ==> final(self).screen == old(self).screen && final(self).level_dat
                == old(self).level_dat,
            final(self).create_screen == old(self).create_screen,
            final(self).create_data == old(self).create_data,
            final(self).selected_tag == old(self).selected_tag,
            final(self).temp_name == old(self).temp_name,
            final(self).temp_value == old(self).temp_value,
            final(self).queue == old(self).queue,
            final(self).selected_action == old(self).selected_action,
    {
        if let Some(file) = file {
            self.screen = ScreenTy::Edit;
            self.level_dat = Some(file);
        }
        match CurrentPath::new(path) {
            Ok(p) => self.path = p,
            Err(()) => {},
        }
    }
}

/// Between writes the queue of changes only grows: removing a tag appends
/// its removal, editing one appends its edit, any other message leaves the
/// queue as it was, and writing empties it.
pub proof fn queue_grows_until_written(b: NbtEdit, a: NbtEdit, message: AppMessage)
    requires
        handled(b, a, message),
    ensures
        message is Write ==> a.queue@.len() == 0,
        message matches AppMessage::TagEvent(id, TagMessage::RemoveTag) ==> a.queue@ == b.queue@.push(
            ActionType::Delete(id),
        ),
        message matches AppMessage::TagEvent(id, TagMessage::EditTag { .. }) ==> {
            &&& a.queue@.drop_last() == b.queue@
            &&& a.queue@.last() matches ActionType::Edit { id: edited, .. }
            &&& edited == id
        },
        !(message is Write) && !(message matches AppMessage::TagEvent(_, TagMessage::RemoveTag))
            && !(message matches AppMessage::TagEvent(_, TagMessage::EditTag { .. })) ==> a.queue
            == b.queue,
{
    if let AppMessage::TagEvent(id, TagMessage::EditTag { .. }) = message {
        assert(a.queue@.drop_last() =~= a.queue@.subrange(0, b.queue@.len() as int));
    }
}

/// The editor `a` differs from `b` in the value field alone, if at all.
pub open spec fn same_but_value(b: NbtEdit, a: NbtEdit) -> bool {
    &&& a.screen == b.screen
    &&& a.create_screen == b.create_screen
    &&& a.create_data == b.create_data
    &&& a.selected_tag == b.selected_tag
    &&& a.temp_name == b.temp_name
    &&& a.path == b.path
    &&& a.level_dat == b.level_dat
    &&& a.queue == b.queue
    &&& a.selected_action == b.selected_action
}

/// The editor `a` differs from `b` in the name field alone, if at all.
pub open spec fn same_but_name(b: NbtEdit, a: NbtEdit) -> bool {
    &&& a.screen == b.screen
    &&& a.create_screen == b.create_screen
    &&& a.create_data == b.create_data
    &&& a.selected_tag == b.selected_tag
    &&& a.temp_value == b.temp_value
    &&& a.path == b.path
    &&& a.level_dat == b.level_dat
    &&& a.queue == b.queue
    &&& a.selected_action == b.selected_action
}

/// Typing changes only the field typed in: text typed in the value field
/// becomes the value field and leaves the name field and the rest as they
/// were; text typed in the name field becomes the name field and leaves
/// the value field and the rest as they were; the name or type typed in
/// the creation form changes that alone. Changing the screen changes the
/// screen alone, picking an action in the queue changes the picked action
/// alone, and opening or closing the creation form opens a blank form or
/// drops it.
pub proof fn typing_changes_only_its_field(b: NbtEdit, a: NbtEdit, message: AppMessage)
    requires
        handled(b, a, message),
    ensures
        message matches AppMessage::InputValue(v) ==> (a.temp_value == v && same_but_value(b, a)),
        message matches AppMessage::InputName(n) ==> (a.temp_name == n && same_but_name(b, a)),
        message matches AppMessage::ChangeScreen(s) ==> (a.screen == s && a.temp_name == b.temp_name
            && a.temp_value == b.temp_value && a.queue == b.queue && a.level_dat == b.level_dat
            && a.selected_tag == b.selected_tag && a.path == b.path),
        message matches AppMessage::InputAction(x) ==> (a.selected_action == Some(x) && a.temp_name
            == b.temp_name && a.temp_value == b.temp_value && a.queue == b.queue && a.level_dat
            == b.level_dat && a.screen == b.screen),
        message matches AppMessage::Pass ==> a == b,
        message matches AppMessage::InputTagName(n) ==> (a.create_data matches Some(d) && d.name == n
            && d.tag == b.create_data.unwrap().tag && a.temp_name == b.temp_name && a.temp_value
            == b.temp_value && a.create_screen == b.create_screen),
        message matches AppMessage::InputTagValue(c) ==> (a.create_data matches Some(d) && d.tag == c
            && d.name == b.create_data.unwrap().name && a.temp_name == b.temp_name && a.temp_value
            == b.temp_value && a.create_screen == b.create_screen),
        message matches AppMessage::ToggleCreate(mode) ==> (a.create_screen == mode && (mode is Off
            <==> a.create_data is None) && a.temp_name == b.temp_name && a.temp_value == b.temp_value),
{
}

} // verus!
