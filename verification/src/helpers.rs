use vstd::prelude::*;

use crate::error::{ParseError, ParseFailure};
use crate::model::{spec_parse, spec_read_payload, type_name_of, TagValue};
use crate::gzip::{first_window, gzip_read_into, raw_window, zero_window};
use crate::nbt::NbtFile;

verus! {

/// The tag types a user can pick for a new tag.
#[derive(Debug, Clone, Copy, PartialEq, Eq, Structural)]
pub enum TagChoice {
    End,
    Byte,
    Short,
    Int,
    Long,
    Float,
    Double,
    ByteArray,
    String,
    List,
    Compound,
    IntArray,
    LongArray,
}

/// The name shown for a choice.
pub open spec fn choice_name(c: TagChoice) -> Seq<char> {
    match c {
        TagChoice::End => "TAG_End"@,
        TagChoice::Byte => "TAG_Byte"@,
        TagChoice::Short => "TAG_Short"@,
        TagChoice::Int => "TAG_Int"@,
        TagChoice::Long => "TAG_Long"@,
        TagChoice::Float => "TAG_Float"@,
        TagChoice::Double => "TAG_Double"@,
        TagChoice::ByteArray => "TAG_ByteArray"@,
        TagChoice::String => "TAG_String"@,
        TagChoice::List => "TAG_List"@,
        TagChoice::Compound => "TAG_Compound"@,
        TagChoice::IntArray => "TAG_IntArray"@,
        TagChoice::LongArray => "TAG_LongArray"@,
    }
}

/// The choice that matches the type of a payload.
pub open spec fn choice_of(v: TagValue) -> TagChoice {
    match v {
        TagValue::End => TagChoice::End,
        TagValue::Byte(_) => TagChoice::Byte,
        TagValue::Short(_) => TagChoice::Short,
        TagValue::Int(_) => TagChoice::Int,
        TagValue::Long(_) => TagChoice::Long,
        TagValue::Float(_) => TagChoice::Float,
        TagValue::Double(_) => TagChoice::Double,
        TagValue::ByteArray(_) => TagChoice::ByteArray,
        TagValue::String(_) => TagChoice::String,
        TagValue::List(_) => TagChoice::List,
        TagValue::Compound(_) => TagChoice::Compound,
        TagValue::IntArray(_) => TagChoice::IntArray,
        TagValue::LongArray(_) => TagChoice::LongArray,
    }
}

impl TagChoice {
    /// Every choice, in the order of the type bytes.
    pub const ALL: [TagChoice; 13] = [
        TagChoice::End,
        TagChoice::Byte,
        TagChoice::Short,
        TagChoice::Int,
        TagChoice::Long,
        TagChoice::Float,
        TagChoice::Double,
        TagChoice::ByteArray,
        TagChoice::String,
        TagChoice::List,
        TagChoice::Compound,
        TagChoice::IntArray,
        TagChoice::LongArray,
    ];

    /// The name shown for the choice, such as `TAG_Compound`.
    pub fn to_string(&self) -> (r: String)
        ensures
            r@ == choice_name(*self),
    {
        match self {
            TagChoice::End => String::from_str("TAG_End"),
            TagChoice::Byte => String::from_str("TAG_Byte"),
            TagChoice::Short => String::from_str("TAG_Short"),
            TagChoice::Int => String::from_str("TAG_Int"),
            TagChoice::Long => String::from_str("TAG_Long"),
            TagChoice::Float => String::from_str("TAG_Float"),
            TagChoice::Double => String::from_str("TAG_Double"),
            TagChoice::ByteArray => String::from_str("TAG_ByteArray"),
            TagChoice::String => String::from_str("TAG_String"),
            TagChoice::List => String::from_str("TAG_List"),
            TagChoice::Compound => String::from_str("TAG_Compound"),
            TagChoice::IntArray => String::from_str("TAG_IntArray"),
            TagChoice::LongArray => String::from_str("TAG_LongArray"),
        }
    }
}

/// A choice is shown under the same name as the payloads of its type.
pub proof fn choice_names_match_type_names(v: TagValue)
    ensures
        choice_name(choice_of(v)) == type_name_of(v),
{
}

/// The choices stand in the order of the type bytes: a payload read with
/// type byte `ty` is of the `ty`-th choice.
pub proof fn choices_follow_type_bytes(s: Seq<u8>, ty: u8, pos: int, id: int)
    requires
        ty < 13,
    ensures
        spec_read_payload(s, ty, pos, id) matches Ok((v, _, _)) ==> choice_of(v)
            == TagChoice::ALL@[ty as int],
{
}

/// A payload read with type byte `ty` is shown under the name of the
/// `ty`-th choice, and payloads read with different type bytes under
/// different names.
pub proof fn type_names_follow_type_bytes(s: Seq<u8>, ty: u8, pos: int, id: int, ty2: u8, pos2: int, id2: int)
    requires
        ty < 13,
        ty2 < 13,
    ensures
        spec_read_payload(s, ty, pos, id) matches Ok((v, _, _)) ==> type_name_of(v) == choice_name(
            TagChoice::ALL@[ty as int],
        ),
        ty != ty2 ==> (spec_read_payload(s, ty, pos, id) matches Ok((v, _, _)) ==> (spec_read_payload(
            s,
            ty2,
            pos2,
            id2,
        ) matches Ok((w, _, _)) ==> type_name_of(v) != type_name_of(w))),
{
    choices_follow_type_bytes(s, ty, pos, id);
    choices_follow_type_bytes(s, ty2, pos2, id2);
    choice_names_are_distinct(TagChoice::ALL@[ty as int], TagChoice::ALL@[ty2 as int]);
    if let Ok((v, _, _)) = spec_read_payload(s, ty, pos, id) {
        choice_names_match_type_names(v);
    }
    if let Ok((w, _, _)) = spec_read_payload(s, ty2, pos2, id2) {
        choice_names_match_type_names(w);
    }
}

/// Different choices are shown under different names.
pub proof fn choice_names_are_distinct(a: TagChoice, b: TagChoice)
    ensures
        a != b ==> choice_name(a) != choice_name(b),
{
    reveal_strlit("TAG_End");
    reveal_strlit("TAG_Byte");
    reveal_strlit("TAG_Short");
    reveal_strlit("TAG_Int");
    reveal_strlit("TAG_Long");
    reveal_strlit("TAG_Float");
    reveal_strlit("TAG_Double");
    reveal_strlit("TAG_ByteArray");
    reveal_strlit("TAG_String");
    reveal_strlit("TAG_List");
    reveal_strlit("TAG_Compound");
    reveal_strlit("TAG_IntArray");
    reveal_strlit("TAG_LongArray");
    if a != b {
        let (x, y) = (choice_name(a), choice_name(b));
        if x.len() == y.len() {
            assert(x[4] != y[4] || x[5] != y[5] || x[6] != y[6] || x[7] != y[7]);
        }
    }
}

/// What the check of the first bytes of a file says: whether they can be the
/// start of an NBT file. A file that reads whole, or whose bytes end before
/// the file does, can be one; a file on which the reader reports another
/// error cannot. The inputs on which the reader cannot go on at all come
/// back as they are.
pub open spec fn header_verdict(bytes: Seq<u8>) -> Result<bool, ParseFailure> {
    match spec_parse(bytes) {
        Ok(_) => Ok(true),
        Err(ParseFailure::Rejected(ParseError::EndOfBuffer)) => Ok(true),
        Err(ParseFailure::Rejected(_)) => Ok(false),
        Err(f) => Err(f),
    }
}

/// The header check says yes exactly when the reader reads a whole file or
/// runs out of bytes, and no exactly when the reader rejects the bytes in
/// another way: an empty input can be a start, while a first byte that is
/// not a tag type, or is a tag type other than a compound, cannot.
pub proof fn header_check_follows_the_reader(s: Seq<u8>)
    ensures
        (header_verdict(s) == Ok::<bool, ParseFailure>(true)) <==> (spec_parse(s) is Ok || spec_parse(s)
            == Err::<crate::model::TagView, _>(ParseFailure::Rejected(ParseError::EndOfBuffer))),
        (header_verdict(s) == Ok::<bool, ParseFailure>(false)) <==> (spec_parse(s) matches Err(
            ParseFailure::Rejected(e),
        ) && e != ParseError::EndOfBuffer),
        s.len() == 0 ==> header_verdict(s) == Ok::<bool, ParseFailure>(true),
        s.len() > 0 && s[0] != 10 ==> header_verdict(s) == Ok::<bool, ParseFailure>(false),
{
}

/// Whether `header`, the first bytes of a file, can be the start of an NBT
/// file; see `header_verdict`.
pub fn is_nbt_header(header: &Vec<u8>) -> (r: Result<bool, ParseFailure>)
    ensures
        r == header_verdict(header@),
{
    match NbtFile::from_bytes(header) {
        Ok(_) => Ok(true),
        Err(ParseFailure::Rejected(ParseError::EndOfBuffer)) => Ok(true),
        Err(ParseFailure::Rejected(_)) => Ok(false),
        Err(f) => Err(f),
    }
}

/// Whether a file, given whole, looks like an NBT file, compressed or not,
/// judging by its first 32 bytes: those it decompresses to where it is
/// gzip, else its own.
pub fn is_save_start(file: &Vec<u8>) -> (r: Result<bool, ParseFailure>)
    ensures
        r == match gzip_read_into(file@, zero_window()) {
            Some(w) => header_verdict(w),
            None => header_verdict(raw_window(file@)),
        },
{
    let window = first_window(file);
    is_nbt_header(&window)
}

} // verus!
