use vstd::prelude::*;

use crate::error::{ParseError, ParseFailure};
use crate::text::{decimal, signed_decimal};

verus! {

/// The mathematical value of a tag payload.
///
/// Floating-point payloads are kept as their IEEE-754 bit patterns.
pub enum TagValue {
    End,
    Byte(i8),
    Short(i16),
    Int(i32),
    Long(i64),
    Float(u32),
    Double(u64),
    ByteArray(Seq<i8>),
    String(Seq<char>),
    List(Seq<TagView>),
    Compound(Seq<TagView>),
    IntArray(Seq<i32>),
    LongArray(Seq<i64>),
}

/// The mathematical value of a tag: its identifier, its name, its payload and
/// the two display flags.
pub struct TagView {
    pub id: usize,
    pub name: Option<Seq<char>>,
    pub value: TagValue,
    pub expanded: bool,
    pub hidden: bool,
}

/// A fresh tag as the reader builds it: not expanded, not hidden.
pub open spec fn fresh_tag(id: usize, name: Option<Seq<char>>, value: TagValue) -> TagView {
    TagView { id, name, value, expanded: false, hidden: false }
}

// ---------------------------------------------------------------------------
// Big-endian numbers
// ---------------------------------------------------------------------------

pub open spec fn be16(s: Seq<u8>, p: int) -> int {
    s[p] * 256 + s[p + 1]
}

pub open spec fn be32(s: Seq<u8>, p: int) -> int {
    s[p] * 16777216 + s[p + 1] * 65536 + s[p + 2] * 256 + s[p + 3]
}

pub open spec fn be64(s: Seq<u8>, p: int) -> int {
    be32(s, p) * 4294967296 + be32(s, p + 4)
}

/// Two's complement reading of a byte.
pub open spec fn to_i8(b: u8) -> i8 {
    if b < 128 {
        b as i8
    } else {
        (b - 256) as i8
    }
}

pub open spec fn to_i16(u: int) -> i16 {
    if u < 32768 {
        u as i16
    } else {
        (u - 65536) as i16
    }
}

pub open spec fn to_i32(u: int) -> i32 {
    if u < 0x8000_0000 {
        u as i32
    } else {
        (u - 0x1_0000_0000) as i32
    }
}

pub open spec fn to_i64(u: int) -> i64 {
    if u < 0x8000_0000_0000_0000 {
        u as i64
    } else {
        (u - 0x1_0000_0000_0000_0000) as i64
    }
}

// ---------------------------------------------------------------------------
// The reader, as a function of the input bytes, the position and the last
// identifier handed out. Each function gives the value read, the position
// after it and the last identifier handed out after it.
// ---------------------------------------------------------------------------

pub open spec fn end_of_buffer<T>() -> Result<T, ParseFailure> {
    Err(ParseFailure::Rejected(ParseError::EndOfBuffer))
}

/// A string: a big-endian `u16` byte length, then that many bytes of UTF-8.
pub open spec fn spec_read_string(s: Seq<u8>, pos: int) -> Result<(Seq<char>, int), ParseFailure> {
    if pos < 0 || pos + 2 > s.len() {
        end_of_buffer()
    } else {
        let n = be16(s, pos);
        if pos + 2 + n > s.len() {
            end_of_buffer()
        } else {
            let bytes = s.subrange(pos + 2, pos + 2 + n);
            if vstd::utf8::valid_utf8(bytes) {
                Ok((vstd::utf8::decode_utf8(bytes), pos + 2 + n))
            } else {
                Err(ParseFailure::Rejected(ParseError::InvalidPayload))
            }
        }
    }
}

/// The payload of a tag of type `ty` at `pos`.
pub open spec fn spec_read_payload(s: Seq<u8>, ty: u8, pos: int, id: int) -> Result<
    (TagValue, int, int),
    ParseFailure,
>
    decreases s.len() - pos, 2int, 0int,
{
    if pos < 0 || pos > s.len() {
        end_of_buffer()
    } else if ty == 0 {
        Ok((TagValue::End, pos, id))
    } else if ty == 1 {
        if pos + 1 > s.len() {
            end_of_buffer()
        } else {
            Ok((TagValue::Byte(to_i8(s[pos])), pos + 1, id))
        }
    } else if ty == 2 {
        if pos + 2 > s.len() {
            end_of_buffer()
        } else {
            Ok((TagValue::Short(to_i16(be16(s, pos))), pos + 2, id))
        }
    } else if ty == 3 {
        if pos + 4 > s.len() {
            end_of_buffer()
        } else {
            Ok((TagValue::Int(to_i32(be32(s, pos))), pos + 4, id))
        }
    } else if ty == 4 {
        if pos + 8 > s.len() {
            end_of_buffer()
        } else {
            Ok((TagValue::Long(to_i64(be64(s, pos))), pos + 8, id))
        }
    } else if ty == 5 {
        if pos + 4 > s.len() {
            end_of_buffer()
        } else {
            Ok((TagValue::Float(be32(s, pos) as u32), pos + 4, id))
        }
    } else if ty == 6 {
        if pos + 8 > s.len() {
            end_of_buffer()
        } else {
            Ok((TagValue::Double(be64(s, pos) as u64), pos + 8, id))
        }
    } else if ty == 7 || ty == 11 || ty == 12 {
        if pos + 4 > s.len() {
            end_of_buffer()
        } else {
            let n = to_i32(be32(s, pos));
            let size: int = if ty == 7 {
                n as int
            } else if ty == 11 {
                4 * n
            } else {
                8 * n
            };
            if n < 0 {
                Err(ParseFailure::NegativeLength(n))
            } else if pos + 4 + size > s.len() {
                end_of_buffer()
            } else if ty == 7 {
                Ok(
                    (
                        TagValue::ByteArray(Seq::new(n as nat, |i: int| to_i8(s[pos + 4 + i]))),
                        pos + 4 + n,
                        id,
                    ),
                )
            } else if ty == 11 {
                Ok(
                    (
                        TagValue::IntArray(
                            Seq::new(n as nat, |i: int| to_i32(be32(s, pos + 4 + 4 * i))),
                        ),
                        pos + 4 + 4 * n,
                        id,
                    ),
                )
            } else {
                Ok(
                    (
                        TagValue::LongArray(
                            Seq::new(n as nat, |i: int| to_i64(be64(s, pos + 4 + 8 * i))),
                        ),
                        pos + 4 + 8 * n,
                        id,
                    ),
                )
            }
        }
    } else if ty == 8 {
        match spec_read_string(s, pos) {
            Ok((text, p)) => Ok((TagValue::String(text), p, id)),
            Err(e) => Err(e),
        }
    } else if ty == 9 {
        if pos + 5 > s.len() {
            end_of_buffer()
        } else {
            let elem = s[pos];
            let n = to_i32(be32(s, pos + 1));
            if n < 0 {
                Err(ParseFailure::NegativeLength(n))
            } else {
                match spec_read_items(s, elem, n as int, pos + 5, id) {
                    Ok((items, p, last)) => Ok((TagValue::List(items), p, last)),
                    Err(e) => Err(e),
                }
            }
        }
    } else if ty == 10 {
        match spec_read_entries(s, pos, id) {
            Ok((entries, p, last)) => Ok((TagValue::Compound(entries), p, last)),
            Err(e) => Err(e),
        }
    } else {
        Err(ParseFailure::UnknownListType(ty))
    }
}

/// `n` unnamed list elements of type `elem`, each taking the next identifier
/// before its payload is read.
pub open spec fn spec_read_items(s: Seq<u8>, elem: u8, n: int, pos: int, id: int) -> Result<
    (Seq<TagView>, int, int),
    ParseFailure,
>
    decreases s.len() - pos, 3int, n,
{
    if n <= 0 {
        Ok((Seq::empty(), pos, id))
    } else if id + 1 > usize::MAX {
        Err(ParseFailure::IdOverflow)
    } else {
        match spec_read_payload(s, elem, pos, id + 1) {
            Ok((value, p, last)) => {
                if p < pos || p > s.len() {
                    end_of_buffer()
                } else {
                    match spec_read_items(s, elem, n - 1, p, last) {
                        Ok((rest, q, last2)) => Ok(
                            (seq![fresh_tag((id + 1) as usize, None, value)] + rest, q, last2),
                        ),
                        Err(e) => Err(e),
                    }
                }
            },
            Err(e) => Err(e),
        }
    }
}

/// Named compound entries up to and including the end marker. Every entry,
/// and the end marker, takes the next identifier.
pub open spec fn spec_read_entries(s: Seq<u8>, pos: int, id: int) -> Result<
    (Seq<TagView>, int, int),
    ParseFailure,
>
    decreases s.len() - pos, 1int, 0int,
{
    if id + 1 > usize::MAX {
        Err(ParseFailure::IdOverflow)
    } else if pos < 0 || pos >= s.len() {
        end_of_buffer()
    } else {
        let ty = s[pos];
        if ty >= 13 {
            Err(ParseFailure::Rejected(ParseError::InvalidTagType))
        } else if ty == 0 {
            Ok((Seq::empty(), pos + 1, id + 1))
        } else {
            match spec_read_string(s, pos + 1) {
                Ok((name, p1)) => {
                    if p1 <= pos || p1 > s.len() {
                        end_of_buffer()
                    } else {
                        match spec_read_payload(s, ty, p1, id + 1) {
                            Ok((value, p2, last)) => {
                                if p2 <= pos || p2 > s.len() {
                                    end_of_buffer()
                                } else {
                                    match spec_read_entries(s, p2, last) {
                                        Ok((rest, q, last2)) => Ok(
                                            (
                                                seq![fresh_tag((id + 1) as usize, Some(name), value)]
                                                    + rest,
                                                q,
                                                last2,
                                            ),
                                        ),
                                        Err(e) => Err(e),
                                    }
                                }
                            },
                            Err(e) => Err(e),
                        }
                    }
                },
                Err(e) => Err(e),
            }
        }
    }
}

/// A whole file read from `pos` on, with `id` the last identifier handed
/// out: a compound tag with a name. The root tag gets identifier 0.
pub open spec fn spec_parse_at(s: Seq<u8>, pos: int, id: int) -> Result<TagView, ParseFailure> {
    if pos < 0 || pos >= s.len() {
        end_of_buffer()
    } else if s[pos] >= 13 {
        Err(ParseFailure::Rejected(ParseError::InvalidTagType))
    } else if s[pos] != 10 {
        Err(ParseFailure::Rejected(ParseError::InvalidRootTag))
    } else {
        match spec_read_string(s, pos + 1) {
            Ok((name, p)) => match spec_read_entries(s, p, id) {
                Ok((entries, _, _)) => Ok(fresh_tag(0, Some(name), TagValue::Compound(entries))),
                Err(e) => Err(e),
            },
            Err(e) => Err(e),
        }
    }
}

/// A whole file.
pub open spec fn spec_parse(s: Seq<u8>) -> Result<TagView, ParseFailure> {
    spec_parse_at(s, 0, 0)
}

// ---------------------------------------------------------------------------
// Where the reader stops
// ---------------------------------------------------------------------------
//
// The functions below give, for each read, the cursor and the last
// identifier handed out once the read is over, whether it succeeded or not.
// Running out of bytes leaves the cursor at the end of the input, as every
// byte up to there has been taken.

/// The cursor after a string read at `pos`.
pub open spec fn spec_string_stop(s: Seq<u8>, pos: int) -> int {
    if pos < 0 {
        pos
    } else if pos + 2 > s.len() {
        s.len() as int
    } else if pos + 2 + be16(s, pos) > s.len() {
        s.len() as int
    } else {
        pos + 2 + be16(s, pos)
    }
}

/// The cursor and the last identifier after reading a payload of type `ty`
/// at `pos`.
pub open spec fn spec_payload_stop(s: Seq<u8>, ty: u8, pos: int, id: int) -> (int, int)
    decreases s.len() - pos, 2int, 0int,
{
    if pos < 0 || pos > s.len() {
        (pos, id)
    } else if ty == 0 {
        (pos, id)
    } else if ty == 1 {
        if pos + 1 > s.len() { (s.len() as int, id) } else { (pos + 1, id) }
    } else if ty == 2 {
        if pos + 2 > s.len() { (s.len() as int, id) } else { (pos + 2, id) }
    } else if ty == 3 || ty == 5 {
        if pos + 4 > s.len() { (s.len() as int, id) } else { (pos + 4, id) }
    } else if ty == 4 || ty == 6 {
        if pos + 8 > s.len() { (s.len() as int, id) } else { (pos + 8, id) }
    } else if ty == 7 || ty == 11 || ty == 12 {
        if pos + 4 > s.len() {
            (s.len() as int, id)
        } else {
            let n = to_i32(be32(s, pos));
            let size: int = if ty == 7 {
                n as int
            } else if ty == 11 {
                4 * n
            } else {
                8 * n
            };
            if n < 0 {
                (pos + 4, id)
            } else if pos + 4 + size > s.len() {
                (s.len() as int, id)
            } else {
                (pos + 4 + size, id)
            }
        }
    } else if ty == 8 {
        (spec_string_stop(s, pos), id)
    } else if ty == 9 {
        if pos + 5 > s.len() {
            (s.len() as int, id)
        } else {
            let n = to_i32(be32(s, pos + 1));
            if n < 0 {
                (pos + 5, id)
            } else {
                spec_items_stop(s, s[pos], n as int, pos + 5, id)
            }
        }
    } else if ty == 10 {
        spec_entries_stop(s, pos, id)
    } else {
        (pos, id)
    }
}

/// The cursor and the last identifier after reading `n` list elements of
/// type `elem` at `pos`.
pub open spec fn spec_items_stop(s: Seq<u8>, elem: u8, n: int, pos: int, id: int) -> (int, int)
    decreases s.len() - pos, 3int, n,
{
    if n <= 0 {
        (pos, id)
    } else if id + 1 > usize::MAX {
        (pos, id)
    } else {
        match spec_read_payload(s, elem, pos, id + 1) {
            Ok((_, p, last)) => {
                if p < pos || p > s.len() {
                    (p, last)
                } else {
                    spec_items_stop(s, elem, n - 1, p, last)
                }
            },
            Err(_) => spec_payload_stop(s, elem, pos, id + 1),
        }
    }
}

/// The cursor and the last identifier after reading compound entries at
/// `pos`: a type byte that is not a tag type stops the read just after it.
pub open spec fn spec_entries_stop(s: Seq<u8>, pos: int, id: int) -> (int, int)
    decreases s.len() - pos, 1int, 0int,
{
    if id + 1 > usize::MAX {
        (pos, id)
    } else if pos < 0 || pos >= s.len() {
        (pos, id + 1)
    } else {
        let ty = s[pos];
        if ty >= 13 || ty == 0 {
            (pos + 1, id + 1)
        } else {
            match spec_read_string(s, pos + 1) {
                Err(_) => (spec_string_stop(s, pos + 1), id + 1),
                Ok((_, p1)) => {
                    if p1 <= pos || p1 > s.len() {
                        (p1, id + 1)
                    } else {
                        match spec_read_payload(s, ty, p1, id + 1) {
                            Err(_) => spec_payload_stop(s, ty, p1, id + 1),
                            Ok((_, p2, last)) => {
                                if p2 <= pos || p2 > s.len() {
                                    (p2, last)
                                } else {
                                    spec_entries_stop(s, p2, last)
                                }
                            },
                        }
                    }
                },
            }
        }
    }
}

/// The cursor and the last identifier after reading a whole file at `pos`.
pub open spec fn spec_parse_stop(s: Seq<u8>, pos: int, id: int) -> (int, int) {
    if pos < 0 || pos >= s.len() {
        (pos, id)
    } else if s[pos] != 10 {
        (pos + 1, id)
    } else {
        match spec_read_string(s, pos + 1) {
            Err(_) => (spec_string_stop(s, pos + 1), id),
            Ok((_, p)) => spec_payload_stop(s, 10, p, id),
        }
    }
}

// ---------------------------------------------------------------------------
// The tree
// ---------------------------------------------------------------------------

/// The first tag with identifier `id`, in pre-order: the tag itself, then
/// its children in order, each searched whole before the next.
pub open spec fn find_tag(t: TagView, id: usize) -> Option<TagView>
    decreases t, 0int,
{
    if t.id == id {
        Some(t)
    } else {
        match t.value {
            TagValue::List(ts) => find_among(ts, 0, id),
            TagValue::Compound(ts) => find_among(ts, 0, id),
            _ => None,
        }
    }
}

/// The first tag with identifier `id` in `ts[i..]`, in pre-order.
pub open spec fn find_among(ts: Seq<TagView>, i: int, id: usize) -> Option<TagView>
    decreases ts, ts.len() - i,
{
    if 0 <= i < ts.len() {
        match find_tag(ts[i], id) {
            Some(x) => Some(x),
            None => find_among(ts, i + 1, id),
        }
    } else {
        None
    }
}

/// `t` with the tag that `find_tag(t, id)` finds replaced by `new`.
pub open spec fn replace_found(t: TagView, id: usize, new: TagView) -> TagView
    decreases t, 0int,
{
    if t.id == id {
        new
    } else {
        match t.value {
            TagValue::List(ts) => TagView {
                value: TagValue::List(replace_among(ts, 0, id, new)),
                ..t
            },
            TagValue::Compound(ts) => TagView {
                value: TagValue::Compound(replace_among(ts, 0, id, new)),
                ..t
            },
            _ => t,
        }
    }
}

/// `ts` with the tag that `find_among(ts, i, id)` finds replaced by `new`.
pub open spec fn replace_among(ts: Seq<TagView>, i: int, id: usize, new: TagView) -> Seq<TagView>
    decreases ts, ts.len() - i,
{
    if 0 <= i < ts.len() {
        if find_tag(ts[i], id) is Some {
            ts.update(i, replace_found(ts[i], id, new))
        } else {
            replace_among(ts, i + 1, id, new)
        }
    } else {
        ts
    }
}

/// Removal of identifier `id` below a compound tag: the entries are visited
/// in order; each entry visited is itself cleaned the same way, and the
/// first entry whose identifier is `id` is dropped, after which the rest is
/// left as it is. Lists, and tags that are not compounds, are left as they
/// are.
pub open spec fn remove_tag(t: TagView, id: usize) -> TagView
    decreases t, 0int,
{
    match t.value {
        TagValue::Compound(ts) => TagView { value: TagValue::Compound(remove_among(ts, 0, id)), ..t },
        _ => t,
    }
}

/// `ts[i..]` after removal of identifier `id`, as in `remove_tag`.
pub open spec fn remove_among(ts: Seq<TagView>, i: int, id: usize) -> Seq<TagView>
    decreases ts, ts.len() - i,
{
    if 0 <= i < ts.len() {
        if ts[i].id == id {
            ts.subrange(i + 1, ts.len() as int)
        } else {
            seq![remove_tag(ts[i], id)] + remove_among(ts, i + 1, id)
        }
    } else {
        Seq::empty()
    }
}

/// The identifiers of a tree, in pre-order.
pub open spec fn tree_ids(t: TagView) -> Seq<usize>
    decreases t,
{
    seq![t.id] + match t.value {
        TagValue::List(ts) => ids_list(ts),
        TagValue::Compound(ts) => ids_list(ts),
        _ => Seq::empty(),
    }
}

/// The identifiers of a sequence of trees, in pre-order.
pub open spec fn ids_list(ts: Seq<TagView>) -> Seq<usize>
    decreases ts,
{
    if ts.len() == 0 {
        Seq::empty()
    } else {
        tree_ids(ts[0]) + ids_list(ts.subrange(1, ts.len() as int))
    }
}

/// Neither the tag nor any tag inside it, at any depth, is expanded or
/// hidden.
pub open spec fn plain_tree(t: TagView) -> bool
    decreases t,
{
    &&& !t.expanded
    &&& !t.hidden
    &&& match t.value {
        TagValue::List(ts) => plain_list(ts),
        TagValue::Compound(ts) => plain_list(ts),
        _ => true,
    }
}

/// Every tree of the sequence is plain.
pub open spec fn plain_list(ts: Seq<TagView>) -> bool
    decreases ts,
{
    ts.len() == 0 || (plain_tree(ts[0]) && plain_list(ts.subrange(1, ts.len() as int)))
}

/// Every tag below a payload is plain.
pub open spec fn plain_value(v: TagValue) -> bool {
    match v {
        TagValue::List(ts) => plain_list(ts),
        TagValue::Compound(ts) => plain_list(ts),
        _ => true,
    }
}

/// The identifiers below a tag, in pre-order.
pub open spec fn child_ids(v: TagValue) -> Seq<usize> {
    match v {
        TagValue::List(ts) => ids_list(ts),
        TagValue::Compound(ts) => ids_list(ts),
        _ => Seq::empty(),
    }
}

pub open spec fn strictly_increasing(ids: Seq<usize>) -> bool {
    forall|i: int, j: int| 0 <= i < j < ids.len() ==> ids[i] < ids[j]
}

/// Every identifier lies in `(lo, hi]`.
pub open spec fn ids_within(ids: Seq<usize>, lo: int, hi: int) -> bool {
    forall|i: int| 0 <= i < ids.len() ==> lo < #[trigger] ids[i] <= hi
}

// ---------------------------------------------------------------------------
// Names and texts
// ---------------------------------------------------------------------------

/// The name of a payload's type.
pub open spec fn type_name_of(v: TagValue) -> Seq<char> {
    match v {
        TagValue::End => "TAG_End"@,
        TagValue::Byte(_) => "TAG_Byte"@,
        TagValue::Short(_) => "TAG_Short"@,
        TagValue::Int(_) => "TAG_Int"@,
        TagValue::Long(_) => "TAG_Long"@,
        TagValue::Float(_) => "TAG_Float"@,
        TagValue::Double(_) => "TAG_Double"@,
        TagValue::ByteArray(_) => "TAG_ByteArray"@,
        TagValue::String(_) => "TAG_String"@,
        TagValue::List(_) => "TAG_List"@,
        TagValue::Compound(_) => "TAG_Compound"@,
        TagValue::IntArray(_) => "TAG_IntArray"@,
        TagValue::LongArray(_) => "TAG_LongArray"@,
    }
}

/// Whether a payload is a collection: an array, a list or a compound.
pub open spec fn holds_items(v: TagValue) -> bool {
    match v {
        TagValue::ByteArray(_) | TagValue::List(_) | TagValue::Compound(_)
        | TagValue::IntArray(_) | TagValue::LongArray(_) => true,
        _ => false,
    }
}

/// The number of items of a collection payload.
pub open spec fn item_count(v: TagValue) -> nat {
    match v {
        TagValue::ByteArray(a) => a.len(),
        TagValue::List(a) => a.len(),
        TagValue::Compound(a) => a.len(),
        TagValue::IntArray(a) => a.len(),
        TagValue::LongArray(a) => a.len(),
        _ => 0,
    }
}

/// The text shown for a payload: nothing for an end tag, the decimal
/// numeral of an integer, the characters of a string, and the number of
/// items of a collection followed by " item(s)". Floating-point payloads
/// have no text here: theirs is the shortest decimal that reads back as the
/// same value, which is left to the caller.
pub open spec fn value_text(v: TagValue) -> Option<Seq<char>> {
    match v {
        TagValue::End => Some(Seq::empty()),
        TagValue::Byte(x) => Some(signed_decimal(x as int)),
        TagValue::Short(x) => Some(signed_decimal(x as int)),
        TagValue::Int(x) => Some(signed_decimal(x as int)),
        TagValue::Long(x) => Some(signed_decimal(x as int)),
        TagValue::Float(_) => None,
        TagValue::Double(_) => None,
        TagValue::String(s) => Some(s),
        _ => Some(decimal(item_count(v)) + " item(s)"@),
    }
}

} // verus!
