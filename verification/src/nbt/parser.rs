use vstd::prelude::*;

use crate::error::{ParseError, ParseFailure};
use crate::model::{be16, be32, be64, end_of_buffer, fresh_tag, spec_entries_stop, spec_items_stop, spec_parse, spec_parse_at, spec_parse_stop, spec_payload_stop, spec_string_stop, spec_read_entries, spec_read_items, spec_read_payload, spec_read_string, to_i16, to_i32, to_i64, to_i8, TagValue, TagView};
use crate::nbt::{lemma_views_of_empty, lemma_views_push, view_of, views_of, value_of, NbtFile, Tag, TagType};
use crate::utf8::string_from_utf8;

verus! {

/// A cursor over the bytes of an NBT file, with the last identifier handed
/// out to a tag.
pub struct ParserData<'a> {
    bytes: &'a Vec<u8>,
    pos: usize,
    max_id: usize,
}

impl<'a> ParserData<'a> {
    #[verifier::type_invariant]
    spec fn inv(self) -> bool {
        self.pos <= self.bytes@.len()
    }

    /// The bytes being read.
    pub closed spec fn input(&self) -> Seq<u8> {
        self.bytes@
    }

    /// How many bytes have been read.
    pub closed spec fn position(&self) -> int {
        self.pos as int
    }

    /// The last identifier handed out.
    pub closed spec fn last_id(&self) -> int {
        self.max_id as int
    }

    /// The cursor stands within the input: at most at its end.
    pub open spec fn within(&self) -> bool {
        0 <= self.position() <= self.input().len()
    }

    /// A cursor at the start of `bytes`, with no identifier handed out.
    pub fn from(bytes: &'a Vec<u8>) -> (r: Self)
        ensures
            r.input() == bytes@,
            r.position() == 0,
            r.last_id() == 0,
            r.within(),
    {
        ParserData { bytes, pos: 0, max_id: 0 }
    }

    /// The next byte.
    pub fn advance(&mut self) -> (r: Result<u8, ParseError>)
        ensures
            old(self).within(),
            final(self).within(),
            final(self).input() == old(self).input(),
            final(self).last_id() == old(self).last_id(),
            match r {
                Ok(b) => {
                    &&& old(self).position() < old(self).input().len()
                    &&& b == old(self).input()[old(self).position()]
                    &&& final(self).position() == old(self).position() + 1
                },
                Err(e) => {
                    &&& old(self).position() >= old(self).input().len()
                    &&& e == ParseError::EndOfBuffer
                    &&& final(self).position() == old(self).position()
                },
            },
    {
        proof {
            use_type_invariant(&*self);
        }
        if self.pos < self.bytes.len() {
            let b = self.bytes[self.pos];
            self.pos = self.pos + 1;
            Ok(b)
        } else {
            Err(ParseError::EndOfBuffer)
        }
    }

    /// The next byte as a tag type, which must be below `0x0d`.
    pub fn get_type(&mut self) -> (r: Result<u8, ParseError>)
        ensures
            old(self).within(),
            final(self).within(),
            final(self).input() == old(self).input(),
            final(self).last_id() == old(self).last_id(),
            match r {
                Ok(t) => {
                    &&& old(self).position() < old(self).input().len()
                    &&& t == old(self).input()[old(self).position()]
                    &&& t < 13
                    &&& final(self).position() == old(self).position() + 1
                },
                Err(e) => {
                    ||| {
                        &&& old(self).position() >= old(self).input().len()
                        &&& e == ParseError::EndOfBuffer
                        &&& final(self).position() == old(self).position()
                    }
                    ||| {
                        &&& old(self).position() < old(self).input().len()
                        &&& old(self).input()[old(self).position()] >= 13
                        &&& e == ParseError::InvalidTagType
                        &&& final(self).position() == old(self).position() + 1
                    }
                },
            },
    {
        match self.advance() {
            Ok(t) => {
                if t >= 0x0d {
                    Err(ParseError::InvalidTagType)
                } else {
                    Ok(t)
                }
            },
            Err(e) => Err(e),
        }
    }

    /// A string: a big-endian `u16` byte length, then that many bytes of
    /// UTF-8.
    pub fn read_utf8_string(&mut self) -> (r: Result<String, ParseError>)
        ensures
            old(self).within(),
            final(self).within(),
            final(self).input() == old(self).input(),
            final(self).last_id() == old(self).last_id(),
            final(self).position() >= old(self).position(),
            final(self).position() == spec_string_stop(old(self).input(), old(self).position()),
            match r {
                Ok(text) => spec_read_string(old(self).input(), old(self).position()) == Ok::<
                    _,
                    ParseFailure,
                >((text@, final(self).position())),
                Err(e) => spec_read_string(old(self).input(), old(self).position()) == Err::<
                    (Seq<char>, int),
                    _,
                >(ParseFailure::Rejected(e)),
            },
    {
        proof {
            use_type_invariant(&*self);
        }
        let ghost s = self.bytes@;
        let ghost p0 = self.pos as int;
        let upper = match self.advance() {
            Ok(b) => b,
            Err(e) => return Err(e),
        };
        let lower = match self.advance() {
            Ok(b) => b,
            Err(e) => return Err(e),
        };
        let len: u16 = (upper as u16) * 256 + lower as u16;
        let mut name: Vec<u8> = Vec::new();
        let mut i: u16 = 0;
        while i < len
            invariant
                self.bytes@ == s,
                s == old(self).bytes@,
                self.max_id == old(self).max_id,
                p0 == old(self).pos,
                self.pos == p0 + 2 + i,
                self.pos <= s.len(),
                i <= len,
                len == be16(s, p0),
                name@ == s.subrange(p0 + 2, self.pos as int),
            decreases len - i,
        {
            proof {
                use_type_invariant(&*self);
            }
            if self.pos < self.bytes.len() {
                let c = self.bytes[self.pos];
                name.push(c);
                self.pos = self.pos + 1;
                i = i + 1;
                assert(name@ =~= s.subrange(p0 + 2, self.pos as int));
            } else {
                return Err(ParseError::EndOfBuffer);
            }
        }
        match string_from_utf8(name) {
            Some(text) => Ok(text),
            None => Err(ParseError::InvalidPayload),
        }
    }
}

impl<'a> ParserData<'a> {
    /// Reading a payload of type `ty` took the cursor from `self` to `after`
    /// with outcome `r`, as the reader's specification says.
    spec fn reads(self, after: Self, ty: u8, r: Result<TagType, ParseFailure>) -> bool {
        &&& after.bytes@ == self.bytes@
        &&& self.pos <= after.pos
        &&& (after.pos as int, after.max_id as int) == spec_payload_stop(
            self.bytes@,
            ty,
            self.pos as int,
            self.max_id as int,
        )
        &&& match r {
            Ok(v) => spec_read_payload(self.bytes@, ty, self.pos as int, self.max_id as int)
                == Ok::<_, ParseFailure>((v@, after.pos as int, after.max_id as int)),
            Err(e) => spec_read_payload(self.bytes@, ty, self.pos as int, self.max_id as int)
                == Err::<(TagValue, int, int), _>(e),
        }
    }

    fn read_byte(&mut self) -> (r: Result<TagType, ParseFailure>)
        ensures
            old(self).reads(*final(self), 1u8, r),
    {
        proof {
            use_type_invariant(&*self);
        }
        if self.pos < self.bytes.len() {
            let b = self.bytes[self.pos];
            self.pos = self.pos + 1;
            Ok(TagType::Byte(i8_of(b)))
        } else {
            self.pos = self.bytes.len();
            Err(ParseFailure::Rejected(ParseError::EndOfBuffer))
        }
    }

    fn read_short(&mut self) -> (r: Result<TagType, ParseFailure>)
        ensures
            old(self).reads(*final(self), 2u8, r),
    {
        proof {
            use_type_invariant(&*self);
        }
        if self.bytes.len() - self.pos >= 2 {
            let u = be16_at(self.bytes, self.pos);
            self.pos = self.pos + 2;
            Ok(TagType::Short(i16_of(u)))
        } else {
            self.pos = self.bytes.len();
            Err(ParseFailure::Rejected(ParseError::EndOfBuffer))
        }
    }

    fn read_int(&mut self) -> (r: Result<TagType, ParseFailure>)
        ensures
            old(self).reads(*final(self), 3u8, r),
    {
        proof {
            use_type_invariant(&*self);
        }
        if self.bytes.len() - self.pos >= 4 {
            let u = be32_at(self.bytes, self.pos);
            self.pos = self.pos + 4;
            Ok(TagType::Int(i32_of(u)))
        } else {
            self.pos = self.bytes.len();
            Err(ParseFailure::Rejected(ParseError::EndOfBuffer))
        }
    }

    fn read_long(&mut self) -> (r: Result<TagType, ParseFailure>)
        ensures
            old(self).reads(*final(self), 4u8, r),
    {
        proof {
            use_type_invariant(&*self);
        }
        if self.bytes.len() - self.pos >= 8 {
            let u = be64_at(self.bytes, self.pos);
            self.pos = self.pos + 8;
            Ok(TagType::Long(i64_of(u)))
        } else {
            self.pos = self.bytes.len();
            Err(ParseFailure::Rejected(ParseError::EndOfBuffer))
        }
    }

    fn read_float(&mut self) -> (r: Result<TagType, ParseFailure>)
        ensures
            old(self).reads(*final(self), 5u8, r),
    {
        proof {
            use_type_invariant(&*self);
        }
        if self.bytes.len() - self.pos >= 4 {
            let u = be32_at(self.bytes, self.pos);
            self.pos = self.pos + 4;
            Ok(TagType::Float(u))
        } else {
            self.pos = self.bytes.len();
            Err(ParseFailure::Rejected(ParseError::EndOfBuffer))
        }
    }

    fn read_double(&mut self) -> (r: Result<TagType, ParseFailure>)
        ensures
            old(self).reads(*final(self), 6u8, r),
    {
        proof {
            use_type_invariant(&*self);
        }
        if self.bytes.len() - self.pos >= 8 {
            let u = be64_at(self.bytes, self.pos);
            self.pos = self.pos + 8;
            Ok(TagType::Double(u))
        } else {
            self.pos = self.bytes.len();
            Err(ParseFailure::Rejected(ParseError::EndOfBuffer))
        }
    }

    fn read_string(&mut self) -> (r: Result<TagType, ParseFailure>)
        ensures
            old(self).reads(*final(self), 8u8, r),
    {
        match self.read_utf8_string() {
            Ok(text) => Ok(TagType::String(text)),
            Err(e) => Err(ParseFailure::Rejected(e)),
        }
    }

    /// The big-endian `i32` length that starts an array or a list, at the
    /// cursor, which must have four bytes left.
    fn read_length(&mut self) -> (n: i32)
        requires
            old(self).pos + 4 <= old(self).bytes.len(),
        ensures
            final(self).bytes == old(self).bytes,
            final(self).max_id == old(self).max_id,
            final(self).pos == old(self).pos + 4,
            n == to_i32(be32(old(self).bytes@, old(self).pos as int)),
    {
        let u = be32_at(self.bytes, self.pos);
        self.pos = self.pos + 4;
        i32_of(u)
    }

    fn read_byte_array(&mut self) -> (r: Result<TagType, ParseFailure>)
        ensures
            old(self).reads(*final(self), 7u8, r),
    {
        proof {
            use_type_invariant(&*self);
        }
        let ghost s = self.bytes@;
        let ghost p0 = self.pos as int;
        if self.bytes.len() - self.pos < 4 {
            self.pos = self.bytes.len();
            return Err(ParseFailure::Rejected(ParseError::EndOfBuffer));
        }
        let length = self.read_length();
        if length < 0 {
            return Err(ParseFailure::NegativeLength(length));
        }
        if ((self.bytes.len() - self.pos) as u64) < length as u64 {
            self.pos = self.bytes.len();
            return Err(ParseFailure::Rejected(ParseError::EndOfBuffer));
        }
        let mut bytes: Vec<i8> = Vec::new();
        let mut i: i32 = 0;
        while i < length
            invariant
                self.bytes@ == s,
                s == old(self).bytes@,
                self.max_id == old(self).max_id,
                p0 == old(self).pos,
                0 <= i <= length,
                self.pos == p0 + 4 + i,
                p0 + 4 + length <= self.bytes.len(),
                bytes@ =~= Seq::new(i as nat, |k: int| to_i8(s[p0 + 4 + k])),
            decreases length - i,
        {
            let b = self.bytes[self.pos];
            bytes.push(i8_of(b));
            self.pos = self.pos + 1;
            i = i + 1;
        }
        Ok(TagType::ByteArray(bytes))
    }

    fn read_int_array(&mut self) -> (r: Result<TagType, ParseFailure>)
        ensures
            old(self).reads(*final(self), 11u8, r),
    {
        proof {
            use_type_invariant(&*self);
        }
        let ghost s = self.bytes@;
        let ghost p0 = self.pos as int;
        if self.bytes.len() - self.pos < 4 {
            self.pos = self.bytes.len();
            return Err(ParseFailure::Rejected(ParseError::EndOfBuffer));
        }
        let length = self.read_length();
        if length < 0 {
            return Err(ParseFailure::NegativeLength(length));
        }
        if ((self.bytes.len() - self.pos) as u64) < (length as u64) * 4 {
            self.pos = self.bytes.len();
            return Err(ParseFailure::Rejected(ParseError::EndOfBuffer));
        }
        let mut array: Vec<i32> = Vec::new();
        let mut i: i32 = 0;
        while i < length
            invariant
                self.bytes@ == s,
                s == old(self).bytes@,
                self.max_id == old(self).max_id,
                p0 == old(self).pos,
                0 <= i <= length,
                self.pos == p0 + 4 + 4 * i,
                p0 + 4 + 4 * length <= self.bytes.len(),
                array@ =~= Seq::new(i as nat, |k: int| to_i32(be32(s, p0 + 4 + 4 * k))),
            decreases length - i,
        {
            let u = be32_at(self.bytes, self.pos);
            array.push(i32_of(u));
            self.pos = self.pos + 4;
            i = i + 1;
        }
        Ok(TagType::IntArray(array))
    }

    fn read_long_array(&mut self) -> (r: Result<TagType, ParseFailure>)
        ensures
            old(self).reads(*final(self), 12u8, r),
    {
        proof {
            use_type_invariant(&*self);
        }
        let ghost s = self.bytes@;
        let ghost p0 = self.pos as int;
        if self.bytes.len() - self.pos < 4 {
            self.pos = self.bytes.len();
            return Err(ParseFailure::Rejected(ParseError::EndOfBuffer));
        }
        let length = self.read_length();
        if length < 0 {
            return Err(ParseFailure::NegativeLength(length));
        }
        if ((self.bytes.len() - self.pos) as u64) < (length as u64) * 8 {
            self.pos = self.bytes.len();
            return Err(ParseFailure::Rejected(ParseError::EndOfBuffer));
        }
        let mut array: Vec<i64> = Vec::new();
        let mut i: i32 = 0;
        while i < length
            invariant
                self.bytes@ == s,
                s == old(self).bytes@,
                self.max_id == old(self).max_id,
                p0 == old(self).pos,
                0 <= i <= length,
                self.pos == p0 + 4 + 8 * i,
                p0 + 4 + 8 * length <= self.bytes.len(),
                array@ =~= Seq::new(i as nat, |k: int| to_i64(be64(s, p0 + 4 + 8 * k))),
            decreases length - i,
        {
            let u = be64_at(self.bytes, self.pos);
            array.push(i64_of(u));
            self.pos = self.pos + 8;
            i = i + 1;
        }
        Ok(TagType::LongArray(array))
    }
}

impl<'a> ParserData<'a> {
    /// The payload of a tag of type `ty`.
    fn read_payload(&mut self, ty: u8) -> (r: Result<TagType, ParseFailure>)
        ensures
            old(self).reads(*final(self), ty, r),
        decreases old(self).bytes@.len() - old(self).pos, 2int,
    {
        proof {
            use_type_invariant(&*self);
        }
        match ty {
            0x00 => Ok(TagType::End),
            0x01 => self.read_byte(),
            0x02 => self.read_short(),
            0x03 => self.read_int(),
            0x04 => self.read_long(),
            0x05 => self.read_float(),
            0x06 => self.read_double(),
            0x07 => self.read_byte_array(),
            0x08 => self.read_string(),
            0x09 => self.read_list(),
            0x0a => self.read_compound(),
            0x0b => self.read_int_array(),
            0x0c => self.read_long_array(),
            x => Err(ParseFailure::UnknownListType(x)),
        }
    }

    #[verifier::spinoff_prover]
    #[verifier::rlimit(30)]
    fn read_list(&mut self) -> (r: Result<TagType, ParseFailure>)
        ensures
            old(self).reads(*final(self), 9u8, r),
        decreases old(self).bytes@.len() - old(self).pos, 1int,
    {
        proof {
            use_type_invariant(&*self);
        }
        let ghost s = self.bytes@;
        let ghost p0 = self.pos as int;
        let ghost id0 = self.max_id as int;
        if self.bytes.len() - self.pos < 5 {
            self.pos = self.bytes.len();
            return Err(ParseFailure::Rejected(ParseError::EndOfBuffer));
        }
        let tag_type = self.bytes[self.pos];
        self.pos = self.pos + 1;
        let length = self.read_length();
        if length < 0 {
            return Err(ParseFailure::NegativeLength(length));
        }
        let mut list: Vec<Tag> = Vec::new();
        let mut i: i32 = 0;
        proof {
            lemma_views_of_empty();
            assert(views_of(list@) + Seq::<TagView>::empty() =~= views_of(list@));
        }
        while i < length
            invariant
                self.bytes@ == s,
                s == old(self).bytes@,
                p0 == old(self).pos,
                id0 == old(self).max_id,
                p0 + 5 <= s.len(),
                tag_type == s[p0],
                length == to_i32(be32(s, p0 + 1)),
                p0 + 5 <= self.pos <= s.len(),
                0 <= i <= length,
                spec_read_items(s, tag_type, length as int, p0 + 5, id0) == match spec_read_items(
                    s,
                    tag_type,
                    (length - i) as int,
                    self.pos as int,
                    self.max_id as int,
                ) {
                    Ok((rest, q, d)) => Ok::<_, ParseFailure>((views_of(list@) + rest, q, d)),
                    Err(e) => Err(e),
                },
                spec_items_stop(s, tag_type, length as int, p0 + 5, id0) == spec_items_stop(
                    s,
                    tag_type,
                    (length - i) as int,
                    self.pos as int,
                    self.max_id as int,
                ),
            decreases length - i,
        {
            if self.max_id == usize::MAX {
                return Err(ParseFailure::IdOverflow);
            }
            let ghost pos_before = self.pos as int;
            self.max_id = self.max_id + 1;
            let id = self.max_id;
            let value = match self.read_payload(tag_type) {
                Ok(v) => v,
                Err(e) => return Err(e),
            };
            proof {
                use_type_invariant(&*self);
            }
            let tag = Tag { id, name: None, tag: value, expanded: false, hidden: false };
            let ghost old_list = list@;
            proof {
                lemma_views_push(list@, tag);
                let x = fresh_tag(id, None, value@);
                assert(view_of(tag) == x);
                assert forall|rest: Seq<TagView>|
                    views_of(old_list) + (seq![x] + rest) =~= views_of(old_list).push(x) + rest by {}
            }
            list.push(tag);
            i = i + 1;
        }
        proof {
            assert(views_of(list@) + Seq::<TagView>::empty() =~= views_of(list@));
        }
        Ok(TagType::List(list))
    }

    #[verifier::spinoff_prover]
    #[verifier::rlimit(40)]
    fn read_compound(&mut self) -> (r: Result<TagType, ParseFailure>)
        ensures
            old(self).reads(*final(self), 10u8, r),
        decreases old(self).bytes@.len() - old(self).pos, 0int,
    {
        proof {
            use_type_invariant(&*self);
        }
        let ghost s = self.bytes@;
        let ghost p0 = self.pos as int;
        let ghost id0 = self.max_id as int;
        let mut tags: Vec<Tag> = Vec::new();
        proof {
            lemma_views_of_empty();
            assert(views_of(tags@) + Seq::<TagView>::empty() =~= views_of(tags@));
        }
        loop
            invariant
                self.bytes@ == s,
                s == old(self).bytes@,
                p0 == old(self).pos,
                id0 == old(self).max_id,
                p0 <= self.pos <= s.len(),
                spec_read_entries(s, p0, id0) == match spec_read_entries(
                    s,
                    self.pos as int,
                    self.max_id as int,
                ) {
                    Ok((rest, q, d)) => Ok::<_, ParseFailure>((views_of(tags@) + rest, q, d)),
                    Err(e) => Err(e),
                },
                spec_entries_stop(s, p0, id0) == spec_entries_stop(
                    s,
                    self.pos as int,
                    self.max_id as int,
                ),
            decreases s.len() - self.pos,
        {
            if self.max_id == usize::MAX {
                return Err(ParseFailure::IdOverflow);
            }
            self.max_id = self.max_id + 1;
            let id = self.max_id;
            let t = match self.get_type() {
                Ok(t) => t,
                Err(e) => return Err(ParseFailure::Rejected(e)),
            };
            if t == 0x00 {
                proof {
                    assert(views_of(tags@) + Seq::<TagView>::empty() =~= views_of(tags@));
                }
                return Ok(TagType::Compound(tags));
            }
            let name = match self.read_utf8_string() {
                Ok(n) => n,
                Err(e) => return Err(ParseFailure::Rejected(e)),
            };
            let value = match self.read_payload(t) {
                Ok(v) => v,
                Err(e) => return Err(e),
            };
            proof {
                use_type_invariant(&*self);
            }
            let tag = Tag { id, name: Some(name), tag: value, expanded: false, hidden: false };
            let ghost old_tags = tags@;
            proof {
                lemma_views_push(tags@, tag);
                let x = fresh_tag(id, Some(name@), value@);
                assert(view_of(tag) == x);
                assert forall|rest: Seq<TagView>|
                    views_of(old_tags) + (seq![x] + rest) =~= views_of(old_tags).push(x) + rest by {}
            }
            tags.push(tag);
        }
    }

    /// A whole file: a compound tag with a name. The root tag gets
    /// identifier 0; the tags inside get the identifiers after the last one
    /// handed out.
    pub fn parse(&mut self) -> (r: Result<NbtFile, ParseFailure>)
        ensures
            old(self).within(),
            final(self).within(),
            final(self).input() == old(self).input(),
            (final(self).position(), final(self).last_id()) == spec_parse_stop(
                old(self).input(),
                old(self).position(),
                old(self).last_id(),
            ),
            match r {
                Ok(file) => spec_parse_at(old(self).input(), old(self).position(), old(self).last_id())
                    == Ok::<_, ParseFailure>(file@),
                Err(e) => spec_parse_at(old(self).input(), old(self).position(), old(self).last_id())
                    == Err::<TagView, _>(e),
            },
    {
        match self.get_type() {
            Ok(0x0a) => {},
            Ok(_) => return Err(ParseFailure::Rejected(ParseError::InvalidRootTag)),
            Err(e) => return Err(ParseFailure::Rejected(e)),
        }
        let name = match self.read_utf8_string() {
            Ok(n) => n,
            Err(e) => return Err(ParseFailure::Rejected(e)),
        };
        let read = self.read_compound();
        proof {
            use_type_invariant(&*self);
        }
        let tag = match read {
            Ok(t) => t,
            Err(e) => return Err(e),
        };
        Ok(NbtFile(Tag { id: 0, name: Some(name), tag, expanded: false, hidden: false }))
    }
}

impl NbtFile {
    /// Reads an uncompressed NBT file.
    pub fn from_bytes(bytes: &Vec<u8>) -> (r: Result<NbtFile, ParseFailure>)
        ensures
            match r {
                Ok(file) => spec_parse(bytes@) == Ok::<_, ParseFailure>(file@),
                Err(e) => spec_parse(bytes@) == Err::<TagView, _>(e),
            },
    {
        ParserData::from(bytes).parse()
    }
}

// ---------------------------------------------------------------------------
// Numbers
// ---------------------------------------------------------------------------

fn i8_of(b: u8) -> (r: i8)
    ensures
        r == to_i8(b),
{
    if b < 128 {
        b as i8
    } else {
        ((b - 128) as i8) - 127 - 1
    }
}

fn i16_of(u: u16) -> (r: i16)
    ensures
        r == to_i16(u as int),
{
    if u < 32768 {
        u as i16
    } else {
        ((u - 32768) as i16) - 32767 - 1
    }
}

fn i32_of(u: u32) -> (r: i32)
    ensures
        r == to_i32(u as int),
{
    if u < 0x8000_0000 {
        u as i32
    } else {
        ((u - 0x8000_0000) as i32) - 0x7fff_ffff - 1
    }
}

fn i64_of(u: u64) -> (r: i64)
    ensures
        r == to_i64(u as int),
{
    if u < 0x8000_0000_0000_0000 {
        u as i64
    } else {
        ((u - 0x8000_0000_0000_0000) as i64) - 0x7fff_ffff_ffff_ffff - 1
    }
}

fn be16_at(s: &Vec<u8>, p: usize) -> (r: u16)
    requires
        p + 2 <= s.len(),
    ensures
        r == be16(s@, p as int),
{
    (s[p] as u16) * 256 + s[p + 1] as u16
}

fn be32_at(s: &Vec<u8>, p: usize) -> (r: u32)
    requires
        p + 4 <= s.len(),
    ensures
        r == be32(s@, p as int),
{
    (s[p] as u32) * 16777216 + (s[p + 1] as u32) * 65536 + (s[p + 2] as u32) * 256 + s[p
        + 3] as u32
}

fn be64_at(s: &Vec<u8>, p: usize) -> (r: u64)
    requires
        p + 8 <= s.len(),
    ensures
        r == be64(s@, p as int),
{
    let hi = be32_at(s, p);
    let lo = be32_at(s, p + 4);
    (hi as u64) * 4294967296 + lo as u64
}

} // verus!
