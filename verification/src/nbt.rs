use vstd::prelude::*;

use crate::model::{holds_items, item_count, type_name_of, value_text, find_among, find_tag, remove_among, remove_tag, replace_among, replace_found, TagValue, TagView};

pub mod parser;

use crate::text::{decimal_string, signed_decimal_string};

verus! {

/// The payload of an NBT tag.
///
/// `Float` and `Double` hold the IEEE-754 bit patterns of the values, as
/// they stand in the file.
#[derive(Debug)]
pub enum TagType {
    End,
    Byte(i8),
    Short(i16),
    Int(i32),
    Long(i64),
    Float(u32),
    Double(u64),
    ByteArray(Vec<i8>),
    String(String),
    List(Vec<Tag>),
    Compound(Vec<Tag>),
    IntArray(Vec<i32>),
    LongArray(Vec<i64>),
}

/// A tag of the tree: an identifier, an optional name, a payload, and two
/// display flags.
#[derive(Debug)]
pub struct Tag {
    id: usize,
    name: Option<String>,
    tag: TagType,
    expanded: bool,
    hidden: bool,
}

/// What the user asked to do with a tag.
#[derive(Debug, Clone)]
#[allow(inconsistent_fields)]
pub enum TagMessage {
    ExpandTag(bool),
    SelectTag(Option<String>, Tag),
    EditTag { name: Option<String>, value: Option<TagType> },
    CreateTag { name: String, tag: TagType },
    RemoveTag,
}

/// An NBT file: its root tag.
#[derive(Debug)]
pub struct NbtFile(Tag);

pub open spec fn name_view(name: Option<String>) -> Option<Seq<char>> {
    match name {
        Some(s) => Some(s@),
        None => None,
    }
}

/// A tag after a message: `ExpandTag` sets whether the children are shown,
/// `EditTag` replaces the name and, when one is given, the payload,
/// `RemoveTag` marks the tag removed; the other messages change nothing.
pub open spec fn updated(v: TagView, message: TagMessage) -> TagView {
    match message {
        TagMessage::ExpandTag(e) => TagView { expanded: e, ..v },
        TagMessage::EditTag { name, value } => TagView {
            name: name_view(name),
            value: match value {
                Some(p) => p@,
                None => v.value,
            },
            ..v
        },
        TagMessage::RemoveTag => TagView { hidden: true, ..v },
        _ => v,
    }
}

/// The model of a payload.
pub open spec fn value_of(t: TagType) -> TagValue
    decreases t,
{
    match t {
        TagType::End => TagValue::End,
        TagType::Byte(x) => TagValue::Byte(x),
        TagType::Short(x) => TagValue::Short(x),
        TagType::Int(x) => TagValue::Int(x),
        TagType::Long(x) => TagValue::Long(x),
        TagType::Float(x) => TagValue::Float(x),
        TagType::Double(x) => TagValue::Double(x),
        TagType::ByteArray(v) => TagValue::ByteArray(v@),
        TagType::String(s) => TagValue::String(s@),
        TagType::List(v) => TagValue::List(views_of(v@)),
        TagType::Compound(v) => TagValue::Compound(views_of(v@)),
        TagType::IntArray(v) => TagValue::IntArray(v@),
        TagType::LongArray(v) => TagValue::LongArray(v@),
    }
}

/// The model of a tag; its fields are the tag's own.
pub closed spec fn view_of(t: Tag) -> TagView
    decreases t,
{
    TagView {
        id: t.id,
        name: name_view(t.name),
        value: value_of(t.tag),
        expanded: t.expanded,
        hidden: t.hidden,
    }
}

/// The models of a sequence of tags.
pub open spec fn views_of(v: Seq<Tag>) -> Seq<TagView>
    decreases v,
{
    Seq::new(
        v.len(),
        |i: int|
            if 0 <= i < v.len() {
                view_of(v[i])
            } else {
                TagView {
                    id: 0,
                    name: None,
                    value: TagValue::End,
                    expanded: false,
                    hidden: false,
                }
            },
    )
}

impl View for TagType {
    type V = TagValue;

    open spec fn view(&self) -> TagValue {
        value_of(*self)
    }
}

impl View for Tag {
    type V = TagView;

    open spec fn view(&self) -> TagView {
        view_of(*self)
    }
}

impl View for NbtFile {
    type V = TagView;

    closed spec fn view(&self) -> TagView {
        view_of(self.0)
    }
}

impl TagType {
    /// The name of the payload's type, such as `TAG_Compound`.
    pub fn tag_type_name(&self) -> (r: String)
        ensures
            r@ == type_name_of(self@),
    {
        match self {
            TagType::End => String::from_str("TAG_End"),
            TagType::Byte(_) => String::from_str("TAG_Byte"),
            TagType::Short(_) => String::from_str("TAG_Short"),
            TagType::Int(_) => String::from_str("TAG_Int"),
            TagType::Long(_) => String::from_str("TAG_Long"),
            TagType::Float(_) => String::from_str("TAG_Float"),
            TagType::Double(_) => String::from_str("TAG_Double"),
            TagType::ByteArray(_) => String::from_str("TAG_ByteArray"),
            TagType::String(_) => String::from_str("TAG_String"),
            TagType::List(_) => String::from_str("TAG_List"),
            TagType::Compound(_) => String::from_str("TAG_Compound"),
            TagType::IntArray(_) => String::from_str("TAG_IntArray"),
            TagType::LongArray(_) => String::from_str("TAG_LongArray"),
        }
    }

    /// Whether the payload is a collection: an array, a list or a compound.
    pub fn is_compound(&self) -> (r: bool)
        ensures
            r == holds_items(self@),
    {
        match self {
            TagType::ByteArray(_) | TagType::List(_) | TagType::Compound(_) | TagType::IntArray(_)
            | TagType::LongArray(_) => true,
            _ => false,
        }
    }

    /// The number of items of a collection payload, 0 for the others.
    fn item_count(&self) -> (r: usize)
        ensures
            r == item_count(self@),
    {
        match self {
            TagType::ByteArray(a) => a.len(),
            TagType::List(a) => {
                proof {
                    lemma_views_index(a@);
                }
                a.len()
            },
            TagType::Compound(a) => {
                proof {
                    lemma_views_index(a@);
                }
                a.len()
            },
            TagType::IntArray(a) => a.len(),
            TagType::LongArray(a) => a.len(),
            _ => 0,
        }
    }

    /// The text shown for the payload; `None` for the floating-point
    /// payloads, whose text the caller writes.
    pub fn text(&self) -> (r: Option<String>)
        ensures
            match r {
                Some(s) => value_text(self@) == Some(s@),
                None => value_text(self@) is None,
            },
    {
        match self {
            TagType::End => Some(String::new()),
            TagType::Byte(x) => Some(signed_decimal_string(*x as i64)),
            TagType::Short(x) => Some(signed_decimal_string(*x as i64)),
            TagType::Int(x) => Some(signed_decimal_string(*x as i64)),
            TagType::Long(x) => Some(signed_decimal_string(*x)),
            TagType::Float(_) => None,
            TagType::Double(_) => None,
            TagType::String(s) => Some(s.clone()),
            _ => {
                let count = decimal_string(self.item_count() as u64);
                proof {
                    reveal_strlit(" item(s)");
                }
                Some(count.concat(" item(s)"))
            },
        }
    }
}

impl TagType {
    fn deep_clone(&self) -> (r: TagType)
        ensures
            r@ == self@,
        decreases self,
    {
        match self {
            TagType::End => TagType::End,
            TagType::Byte(x) => TagType::Byte(*x),
            TagType::Short(x) => TagType::Short(*x),
            TagType::Int(x) => TagType::Int(*x),
            TagType::Long(x) => TagType::Long(*x),
            TagType::Float(x) => TagType::Float(*x),
            TagType::Double(x) => TagType::Double(*x),
            TagType::ByteArray(v) => {
                let c = v.clone();
                assert(c@ =~= v@);
                TagType::ByteArray(c)
            },
            TagType::String(s) => TagType::String(s.clone()),
            TagType::List(v) => TagType::List(clone_tags(v)),
            TagType::Compound(v) => TagType::Compound(clone_tags(v)),
            TagType::IntArray(v) => {
                let c = v.clone();
                assert(c@ =~= v@);
                TagType::IntArray(c)
            },
            TagType::LongArray(v) => {
                let c = v.clone();
                assert(c@ =~= v@);
                TagType::LongArray(c)
            },
        }
    }
}

impl Tag {
    fn deep_clone(&self) -> (r: Tag)
        ensures
            r@ == self@,
        decreases self,
    {
        let name = match &self.name {
            Some(s) => Some(s.clone()),
            None => None,
        };
        Tag {
            id: self.id,
            name,
            tag: self.tag.deep_clone(),
            expanded: self.expanded,
            hidden: self.hidden,
        }
    }
}

fn clone_tags(v: &Vec<Tag>) -> (r: Vec<Tag>)
    ensures
        views_of(r@) == views_of(v@),
    decreases v,
{
    let mut r: Vec<Tag> = Vec::new();
    let mut i: usize = 0;
    proof {
        lemma_views_index(v@);
    }
    while i < v.len()
        invariant
            i <= v.len(),
            r@.len() == i,
            views_of(v@).len() == v@.len(),
            forall|k: int| 0 <= k < v@.len() ==> #[trigger] views_of(v@)[k] == view_of(v@[k]),
            forall|k: int| 0 <= k < i ==> #[trigger] view_of(r@[k]) == view_of(v@[k]),
        decreases v.len() - i,
    {
        proof {
            assert(decreases_to!(v => v@[i as int]));
        }
        let c = v[i].deep_clone();
        r.push(c);
        i += 1;
    }
    proof {
        lemma_views_index(r@);
        assert(views_of(r@) =~= views_of(v@));
    }
    r
}

impl Clone for TagType {
    fn clone(&self) -> (r: Self)
        ensures
            r@ == self@,
    {
        self.deep_clone()
    }
}

impl Clone for Tag {
    fn clone(&self) -> (r: Self)
        ensures
            r@ == self@,
    {
        self.deep_clone()
    }
}

impl Default for Tag {
    fn default() -> (r: Self)
        ensures
            r@ == (TagView {
                id: 0,
                name: None,
                value: TagValue::End,
                expanded: false,
                hidden: false,
            }),
    {
        Tag { id: 0, name: None, tag: TagType::End, expanded: false, hidden: false }
    }
}

impl NbtFile {
    /// The root tag.
    pub fn get_tag(&self) -> (r: &Tag)
        ensures
            r@ == self@,
    {
        &self.0
    }

    /// The root tag, for editing.
    pub fn get_mut_tag(&mut self) -> (r: &mut Tag)
        ensures
            (*r)@ == old(self)@,
            final(self)@ == final(r)@,
    {
        &mut self.0
    }
}

impl Tag {
    /// The payload.
    pub fn get(&self) -> (r: &TagType)
        ensures
            r@ == self@.value,
    {
        &self.tag
    }

    /// The identifier.
    pub fn id(&self) -> (r: usize)
        ensures
            r == self@.id,
    {
        self.id
    }

    /// The name; list items have none.
    pub fn name(&self) -> (r: Option<&String>)
        ensures
            match r {
                Some(s) => self@.name == Some(s@),
                None => self@.name is None,
            },
    {
        match &self.name {
            Some(s) => Some(s),
            None => None,
        }
    }

    /// Whether the children are shown.
    pub fn is_expanded(&self) -> (r: bool)
        ensures
            r == self@.expanded,
    {
        self.expanded
    }

    /// Whether the tag was marked removed.
    pub fn is_hidden(&self) -> (r: bool)
        ensures
            r == self@.hidden,
    {
        self.hidden
    }

    /// The first tag with identifier `id`, in pre-order, looking through
    /// lists and compounds.
    pub fn find(&self, id: usize) -> (r: Option<&Tag>)
        ensures
            match r {
                Some(x) => find_tag(self@, id) == Some(x@),
                None => find_tag(self@, id) is None,
            },
        decreases self,
    {
        if self.id == id {
            return Some(self);
        }
        match &self.tag {
            TagType::Compound(tags) | TagType::List(tags) => {
                let mut i: usize = 0;
                while i < tags.len()
                    invariant
                        i <= tags.len(),
                        find_tag(self@, id) == find_among(views_of(tags@), i as int, id),
                        self.tag == TagType::Compound(*tags) || self.tag == TagType::List(*tags),
                    decreases tags.len() - i,
                {
                    proof {
                        assert(decreases_to!(self => tags@[i as int]));
                    }
                    match tags[i].find(id) {
                        Some(s) => return Some(s),
                        None => {},
                    }
                    i += 1;
                }
            },
            _ => {},
        }
        None
    }

    /// Applies a message: `ExpandTag` sets whether the children are shown,
    /// `EditTag` replaces the name and, when one is given, the payload,
    /// `RemoveTag` marks the tag removed; the other messages change nothing.
    pub fn update(&mut self, message: TagMessage)
        ensures
            final(self)@ == updated(old(self)@, message),
    {
        match message {
            TagMessage::ExpandTag(expanded) => self.expanded = expanded,
            TagMessage::EditTag { name, value } => {
                self.name = name;
                if let Some(value) = value {
                    self.tag = value;
                }
            },
            TagMessage::RemoveTag => self.hidden = true,
            _ => {},
        }
    }

    /// The first tag with identifier `id`, in pre-order, for editing: what
    /// is written through the result lands at that place in the tree.
    pub fn find_mut(&mut self, id: usize) -> (r: Option<&mut Tag>)
        ensures
            match r {
                Some(x) => {
                    &&& find_tag(old(self)@, id) == Some((*x)@)
                    &&& final(self)@ == replace_found(old(self)@, id, final(x)@)
                },
                None => {
                    &&& find_tag(old(self)@, id) is None
                    &&& final(self)@ == old(self)@
                },
            },
        decreases *old(self),
    {
        if self.id == id {
            return Some(self);
        }
        match &mut self.tag {
            TagType::Compound(tags) => find_mut_in(tags, id),
            TagType::List(tags) => find_mut_in(tags, id),
            _ => None,
        }
    }

    /// Removes the tag with identifier `id` from the entries of this
    /// compound, cleaning each entry visited on the way the same way; see
    /// `remove_tag`.
    pub fn remove(&mut self, id: usize)
        ensures
            final(self)@ == remove_tag(old(self)@, id),
        decreases *old(self),
    {
        let mut payload = TagType::End;
        std::mem::swap(&mut payload, &mut self.tag);
        match payload {
            TagType::Compound(mut tags) => {
                let ghost orig = tags;
                let ghost ov = views_of(orig@);
                proof {
                    lemma_views_index(orig@);
                }
                let mut i: usize = 0;
                while i < tags.len()
                    invariant
                        old(self).tag == TagType::Compound(orig),
                        self.id == old(self).id,
                        self.name == old(self).name,
                        self.expanded == old(self).expanded,
                        self.hidden == old(self).hidden,
                        ov == views_of(orig@),
                        ov.len() == orig@.len(),
                        forall|k: int| 0 <= k < orig@.len() ==> #[trigger] ov[k] == view_of(orig@[k]),
                        tags@.len() == orig@.len(),
                        i <= tags@.len(),
                        forall|k: int| i <= k < orig@.len() ==> #[trigger] tags@[k] == orig@[k],
                        remove_among(ov, 0, id) == views_of(tags@.subrange(0, i as int))
                            + remove_among(ov, i as int, id),
                    decreases tags.len() - i,
                {
                    proof {
                        assert(decreases_to!(*old(self) => orig@[i as int]));
                        lemma_views_index(tags@.subrange(0, i as int));
                    }
                    let ghost before = tags@;
                    tags[i].remove(id);
                    proof {
                        lemma_views_index(tags@.subrange(0, i as int + 1));
                        lemma_views_index(tags@.subrange(0, i as int));
                        assert(tags@.subrange(0, i as int) =~= before.subrange(0, i as int));
                    }
                    if tags[i].id == id {
                        let ghost processed = tags@.subrange(0, i as int);
                        tags.remove(i);
                        proof {
                            lemma_views_index(tags@);
                            lemma_views_index(processed);
                            lemma_views_index(orig@);
                            assert(remove_among(ov, i as int, id) == ov.subrange(i + 1, ov.len() as int));
                            assert(views_of(tags@) =~= views_of(processed) + ov.subrange(i + 1, ov.len() as int));
                        }
                        self.tag = TagType::Compound(tags);
                        return;
                    }
                    proof {
                        assert(views_of(tags@.subrange(0, i as int + 1)) =~= views_of(tags@.subrange(0, i as int)).push(remove_tag(ov[i as int], id)));
                    }
                    i += 1;
                }
                proof {
                    assert(tags@.subrange(0, i as int) =~= tags@);
                    assert(remove_among(ov, i as int, id) =~= Seq::<TagView>::empty());
                }
                self.tag = TagType::Compound(tags);
            },
            other => {
                self.tag = other;
            },
        }
    }
}

proof fn lemma_views_push(v: Seq<Tag>, t: Tag)
    ensures
        views_of(v.push(t)) =~= views_of(v).push(view_of(t)),
{
}

/// The first tag with identifier `id` among `tags`, in pre-order, for
/// editing.
fn find_mut_in(tags: &mut Vec<Tag>, id: usize) -> (r: Option<&mut Tag>)
    ensures
        match r {
            Some(x) => {
                &&& find_among(views_of(old(tags)@), 0, id) == Some((*x)@)
                &&& views_of(final(tags)@) == replace_among(views_of(old(tags)@), 0, id, final(x)@)
            },
            None => {
                &&& find_among(views_of(old(tags)@), 0, id) is None
                &&& final(tags)@ == old(tags)@
            },
        },
    decreases *old(tags),
{
    let ghost ts = views_of(tags@);
    proof {
        lemma_views_index(tags@);
    }
    let mut i: usize = 0;
    while i < tags.len()
        invariant
            i <= tags.len(),
            tags@ == old(tags)@,
            ts == views_of(tags@),
            ts.len() == tags@.len(),
            forall|k: int| 0 <= k < tags@.len() ==> #[trigger] ts[k] == view_of(tags@[k]),
            find_among(ts, 0, id) == find_among(ts, i as int, id),
            forall|new: TagView| replace_among(ts, 0, id, new) == replace_among(ts, i as int, id, new),
        decreases tags.len() - i,
    {
        if tags[i].find(id).is_some() {
            proof {
                assert(decreases_to!(*old(tags) => old(tags)@[i as int]));
                lemma_views_update(tags@);
            }
            return tags[i].find_mut(id);
        }
        i += 1;
    }
    None
}

proof fn lemma_views_update(v: Seq<Tag>)
    ensures
        forall|i: int, e: Tag|
            0 <= i < v.len() ==> #[trigger] views_of(v.update(i, e)) == views_of(v).update(
                i,
                view_of(e),
            ),
{
    assert forall|i: int, e: Tag| 0 <= i < v.len() implies #[trigger] views_of(v.update(i, e))
        == views_of(v).update(i, view_of(e)) by {
        assert(views_of(v.update(i, e)) =~= views_of(v).update(i, view_of(e)));
    }
}

proof fn lemma_views_index(v: Seq<Tag>)
    ensures
        views_of(v).len() == v.len(),
        forall|k: int| 0 <= k < v.len() ==> #[trigger] views_of(v)[k] == view_of(v[k]),
{
}

proof fn lemma_views_of_empty()
    ensures
        views_of(Seq::<Tag>::empty()) =~= Seq::<TagView>::empty(),
{
}

} // verus!
