//! The two framings of a tag.
//!
//! The compact form is the key and the value, each behind its length as
//! eight little-endian bytes. The readable form is a map with the fields
//! `key`, a string, and `val`, the value in upper-case hexadecimal.

use crate::hexcode::{from_hex, hex_upper, read_hex, to_hex, HexError};
use crate::tags::{Tag, TagView};
use crate::text::{same_text, text_of};
use vstd::bytes::{
    lemma_auto_spec_u64_to_from_le_bytes, spec_u64_from_le_bytes, spec_u64_to_le_bytes,
    u64_from_le_bytes, u64_to_le_bytes,
};
use vstd::prelude::*;
use vstd::slice::{slice_subrange, slice_to_vec};
use vstd::utf8::{decode_utf8, encode_utf8, encode_utf8_decode_utf8, encode_utf8_valid_utf8, valid_utf8};

verus! {

/// Why bytes could not be read as a tag in its compact form.
#[derive(Debug, Clone, Copy, PartialEq, Eq, Structural)]
pub enum CodecError {
    /// The bytes end before a length or a field is complete.
    Truncated,
    /// The bytes of the key are not valid UTF-8.
    BadUtf8,
}

/// `data` behind its length.
pub open spec fn length_prefixed(data: Seq<u8>) -> Seq<u8> {
    spec_u64_to_le_bytes(data.len() as u64) + data
}

/// The compact form of a tag.
pub open spec fn binary_form(t: TagView) -> Seq<u8> {
    length_prefixed(encode_utf8(t.key)) + length_prefixed(t.val)
}

/// The field that `bytes` start with, if they hold a whole one.
pub open spec fn first_field(bytes: Seq<u8>) -> Option<Seq<u8>> {
    if bytes.len() < 8 {
        None
    } else {
        let n = spec_u64_from_le_bytes(bytes.subrange(0, 8)) as int;
        if n > bytes.len() - 8 {
            None
        } else {
            Some(bytes.subrange(8, 8 + n))
        }
    }
}

/// The tag that `bytes` start with, and how many bytes it takes up.
pub open spec fn parse_binary(bytes: Seq<u8>) -> Result<(TagView, int), CodecError> {
    match first_field(bytes) {
        None => Err(CodecError::Truncated),
        Some(key) => if !valid_utf8(key) {
            Err(CodecError::BadUtf8)
        } else {
            match first_field(bytes.skip(8 + key.len() as int)) {
                None => Err(CodecError::Truncated),
                Some(val) => Ok(
                    (TagView { key: decode_utf8(key), val }, 16 + key.len() as int + val.len() as int),
                ),
            }
        },
    }
}

proof fn lemma_first_field(data: Seq<u8>, rest: Seq<u8>)
    requires
        data.len() <= u64::MAX,
    ensures
        first_field(length_prefixed(data) + rest) == Some(data),
        (length_prefixed(data) + rest).skip(8 + data.len() as int) == rest,
        length_prefixed(data).len() == 8 + data.len(),
{
    lemma_auto_spec_u64_to_from_le_bytes();
    let n = data.len() as u64;
    let all = length_prefixed(data) + rest;
    assert(all.subrange(0, 8) =~= spec_u64_to_le_bytes(n));
    assert(all.subrange(8, 8 + data.len() as int) =~= data);
    assert(all.skip(8 + data.len() as int) =~= rest);
}

/// Reading the compact form of a tag gives the tag back, whatever
/// follows it, and says where it ends.
pub proof fn lemma_binary_round_trip(t: TagView, rest: Seq<u8>)
    requires
        encode_utf8(t.key).len() <= u64::MAX,
        t.val.len() <= u64::MAX,
    ensures
        parse_binary(binary_form(t) + rest) == Ok::<(TagView, int), CodecError>(
            (t, binary_form(t).len() as int),
        ),
{
    let key = encode_utf8(t.key);
    let tail = length_prefixed(t.val) + rest;
    assert(binary_form(t) + rest =~= length_prefixed(key) + tail);
    lemma_first_field(key, tail);
    lemma_first_field(t.val, rest);
    encode_utf8_valid_utf8(t.key);
    encode_utf8_decode_utf8(t.key);
}

fn put_field(out: &mut Vec<u8>, data: &[u8])
    ensures
        final(out)@ == old(out)@ + length_prefixed(data@),
{
    let ghost before = out@;
    let mut len = u64_to_le_bytes(data.len() as u64);
    out.append(&mut len);
    let ghost mid = out@;
    out.extend_from_slice(data);
    assert(out@ =~= mid + data@);
    assert(out@ =~= before + length_prefixed(data@));
}

fn take_field(bytes: &[u8], at: usize) -> (r: Option<Vec<u8>>)
    requires
        at <= bytes.len(),
    ensures
        match r {
            Some(v) => first_field(bytes@.skip(at as int)) == Some(v@) && at + 8 + v.len()
                <= bytes.len(),
            None => first_field(bytes@.skip(at as int)) is None,
        },
{
    let left = bytes.len() - at;
    if left < 8 {
        return None;
    }
    let n = u64_from_le_bytes(slice_subrange(bytes, at, at + 8));
    assert(bytes@.skip(at as int).subrange(0, 8) =~= bytes@.subrange(at as int, at + 8));
    if n > (left - 8) as u64 {
        return None;
    }
    let len = n as usize;
    let v = slice_to_vec(slice_subrange(bytes, at + 8, at + 8 + len));
    assert(bytes@.skip(at as int).subrange(8, 8 + len) =~= v@);
    Some(v)
}

impl Tag {
    /// The tag in its compact binary form.
    pub fn to_bytes(&self) -> (r: Vec<u8>)
        ensures
            r@ == binary_form(self@),
    {
        let mut out: Vec<u8> = Vec::new();
        put_field(&mut out, self.key.as_str().as_bytes());
        put_field(&mut out, self.val.as_slice());
        assert(out@ =~= binary_form(self@));
        out
    }

    /// Reads the tag that `bytes` start with, and says how many bytes it
    /// takes up.
    pub fn from_bytes(bytes: &[u8]) -> (r: Result<(Tag, usize), CodecError>)
        ensures
            match r {
                Ok((t, n)) => parse_binary(bytes@) == Ok::<(TagView, int), CodecError>(
                    (t@, n as int),
                ),
                Err(e) => parse_binary(bytes@) == Err::<(TagView, int), CodecError>(e),
            },
    {
        assert(bytes@.skip(0) =~= bytes@);
        let key_bytes = match take_field(bytes, 0) {
            Some(k) => k,
            None => {
                return Err(CodecError::Truncated);
            },
        };
        let ghost kb = key_bytes@;
        let key_len = key_bytes.len();
        let key = match text_of(key_bytes) {
            Some(k) => k,
            None => {
                return Err(CodecError::BadUtf8);
            },
        };
        let val = match take_field(bytes, 8 + key_len) {
            Some(v) => v,
            None => {
                return Err(CodecError::Truncated);
            },
        };
        let n = 16 + key_len + val.len();
        Ok((Tag { key, val }, n))
    }

    /// The value in its readable form: upper-case hexadecimal.
    pub fn val_hex(&self) -> (r: String)
        ensures
            r@ == hex_upper(self.val@),
    {
        to_hex(self.val.as_slice())
    }
}

/// The fields of a tag in its readable form.
#[derive(Debug, Clone, Copy, PartialEq, Eq, Structural)]
pub enum Field {
    Key,
    Val,
}

/// Why a map of fields could not be read as a tag.
#[derive(Debug)]
pub enum TagError {
    /// A field stands twice in the map.
    DuplicateField(Field),
    /// The map holds a field that a tag does not have.
    UnknownField(String),
    /// The map ends without this field.
    MissingField(Field),
    /// The value is no hexadecimal text.
    BadHex(HexError),
}

/// What a `TagError` is to a contract.
pub enum TagErrorView {
    DuplicateField(Field),
    UnknownField(Seq<char>),
    MissingField(Field),
    BadHex(HexError),
}

impl View for TagError {
    type V = TagErrorView;

    open spec fn view(&self) -> TagErrorView {
        match self {
            TagError::DuplicateField(f) => TagErrorView::DuplicateField(*f),
            TagError::UnknownField(n) => TagErrorView::UnknownField(n@),
            TagError::MissingField(f) => TagErrorView::MissingField(*f),
            TagError::BadHex(e) => TagErrorView::BadHex(*e),
        }
    }
}

/// The fields read so far, as a contract sees them.
pub struct FieldsView {
    pub key: Option<Seq<char>>,
    pub val: Option<Seq<u8>>,
}

/// Which field a name stands for, given what was read already.
pub open spec fn field_named(seen: FieldsView, name: Seq<char>) -> Result<Field, TagErrorView> {
    if name == "key"@ {
        if seen.key is Some {
            Err(TagErrorView::DuplicateField(Field::Key))
        } else {
            Ok(Field::Key)
        }
    } else if name == "val"@ {
        if seen.val is Some {
            Err(TagErrorView::DuplicateField(Field::Val))
        } else {
            Ok(Field::Val)
        }
    } else {
        Err(TagErrorView::UnknownField(name))
    }
}

/// The tag that the fields make once the map has ended.
pub open spec fn finished(seen: FieldsView) -> Result<TagView, TagErrorView> {
    match (seen.key, seen.val) {
        (None, _) => Err(TagErrorView::MissingField(Field::Key)),
        (Some(_), None) => Err(TagErrorView::MissingField(Field::Val)),
        (Some(key), Some(val)) => Ok(TagView { key, val }),
    }
}

/// Collects the fields of a tag as a reader meets them in a map.
///
/// The reader asks [`TagFields::expect`] what a name stands for, reads
/// the value that the answer calls for, hands it over, and at the end of
/// the map calls [`TagFields::finish`].
#[derive(Debug)]
pub struct TagFields {
    key: Option<String>,
    val: Option<Vec<u8>>,
}

impl View for TagFields {
    type V = FieldsView;

    closed spec fn view(&self) -> FieldsView {
        FieldsView {
            key: match self.key {
                Some(k) => Some(k@),
                None => None,
            },
            val: match self.val {
                Some(v) => Some(v@),
                None => None,
            },
        }
    }
}

impl TagFields {
    /// No field read yet.
    pub fn new() -> (r: Self)
        ensures
            r@ == (FieldsView { key: None, val: None }),
    {
        TagFields { key: None, val: None }
    }

    /// Which field `name` stands for. A field that was read already and
    /// a name that a tag does not have are errors.
    pub fn expect(&self, name: &str) -> (r: Result<Field, TagError>)
        ensures
            match r {
                Ok(f) => field_named(self@, name@) == Ok::<Field, TagErrorView>(f),
                Err(e) => field_named(self@, name@) == Err::<Field, TagErrorView>(e@),
            },
    {
        if same_text(name, "key") {
            if self.key.is_some() {
                Err(TagError::DuplicateField(Field::Key))
            } else {
                Ok(Field::Key)
            }
        } else if same_text(name, "val") {
            if self.val.is_some() {
                Err(TagError::DuplicateField(Field::Val))
            } else {
                Ok(Field::Val)
            }
        } else {
            Err(TagError::UnknownField(name.to_owned()))
        }
    }

    /// Takes the key.
    pub fn set_key(&mut self, key: String)
        ensures
            final(self)@ == (FieldsView { key: Some(key@), val: old(self)@.val }),
    {
        self.key = Some(key);
    }

    /// Takes the value as bytes.
    pub fn set_val(&mut self, val: Vec<u8>)
        ensures
            final(self)@ == (FieldsView { key: old(self)@.key, val: Some(val@) }),
    {
        self.val = Some(val);
    }

    /// Takes the value as hexadecimal text. Text that cannot be read
    /// leaves the fields as they were.
    pub fn set_val_hex(&mut self, text: &str) -> (r: Result<(), TagError>)
        ensures
            match r {
                Ok(()) => {
                    &&& read_hex(encode_utf8(text@)) matches Ok(v)
                    &&& final(self)@ == (FieldsView { key: old(self)@.key, val: Some(v) })
                },
                Err(e) => {
                    &&& read_hex(encode_utf8(text@)) matches Err(h)
                    &&& e@ == TagErrorView::BadHex(h)
                    &&& final(self)@ == old(self)@
                },
            },
    {
        match from_hex(text) {
            Ok(v) => {
                self.val = Some(v);
                Ok(())
            },
            Err(h) => Err(TagError::BadHex(h)),
        }
    }

    /// The tag, once the map has ended: both fields must have been read.
    pub fn finish(self) -> (r: Result<Tag, TagError>)
        ensures
            match r {
                Ok(t) => finished(self@) == Ok::<TagView, TagErrorView>(t@),
                Err(e) => finished(self@) == Err::<TagView, TagErrorView>(e@),
            },
    {
        match (self.key, self.val) {
            (None, _) => Err(TagError::MissingField(Field::Key)),
            (Some(_), None) => Err(TagError::MissingField(Field::Val)),
            (Some(key), Some(val)) => Ok(Tag { key, val }),
        }
    }
}

/// A map of fields as a contract sees it: names and texts, in order.
pub open spec fn texts(entries: Seq<(String, String)>) -> Seq<(Seq<char>, Seq<char>)> {
    entries.map_values(|e: (String, String)| (e.0@, e.1@))
}

/// What reading the entries of a readable map gives, after the fields
/// `seen`: the entries are taken in order, and the first that cannot be
/// taken decides the error.
pub open spec fn read_fields(entries: Seq<(Seq<char>, Seq<char>)>, seen: FieldsView) -> Result<
    TagView,
    TagErrorView,
>
    decreases entries.len(),
{
    if entries.len() == 0 {
        finished(seen)
    } else {
        let (name, text) = entries[0];
        match field_named(seen, name) {
            Err(e) => Err(e),
            Ok(Field::Key) => read_fields(
                entries.drop_first(),
                FieldsView { key: Some(text), val: seen.val },
            ),
            Ok(Field::Val) => match read_hex(encode_utf8(text)) {
                Err(h) => Err(TagErrorView::BadHex(h)),
                Ok(v) => read_fields(entries.drop_first(), FieldsView { key: seen.key, val: Some(v) }),
            },
        }
    }
}

impl Tag {
    /// Reads a tag from the entries of its readable form: a map in which
    /// `key` holds the key and `val` the value in hexadecimal, each once
    /// and in any order, and nothing else.
    pub fn from_fields(entries: &Vec<(String, String)>) -> (r: Result<Tag, TagError>)
        ensures
            match r {
                Ok(t) => read_fields(texts(entries@), FieldsView { key: None, val: None }) == Ok::<
                    TagView,
                    TagErrorView,
                >(t@),
                Err(e) => read_fields(texts(entries@), FieldsView { key: None, val: None })
                    == Err::<TagView, TagErrorView>(e@),
            },
    {
        let ghost all = texts(entries@);
        let ghost start = FieldsView { key: None, val: None };
        let mut fields = TagFields::new();
        let mut i: usize = 0;
        assert(all.skip(0) =~= all);
        while i < entries.len()
            invariant
                i <= entries.len(),
                all == texts(entries@),
                start == (FieldsView { key: None, val: None }),
                read_fields(all, start) == read_fields(all.skip(i as int), fields@),
            decreases entries.len() - i,
        {
            let ghost rest = all.skip(i as int);
            assert(rest[0] == (entries@[i as int].0@, entries@[i as int].1@));
            assert(rest.drop_first() =~= all.skip(i + 1));
            assert(rest.len() > 0);
            let ghost seen = fields@;
            assert(read_fields(all, start) == read_fields(rest, seen));
            match fields.expect(entries[i].0.as_str()) {
                Err(e) => {
                    return Err(e);
                },
                Ok(Field::Key) => {
                    fields.set_key(entries[i].1.clone());
                },
                Ok(Field::Val) => {
                    match fields.set_val_hex(entries[i].1.as_str()) {
                        Err(e) => {
                            return Err(e);
                        },
                        Ok(()) => {},
                    }
                },
            }
            i += 1;
        }
        assert(all.skip(i as int).len() == 0);
        fields.finish()
    }
}

/// Reading the readable form of a tag gives the tag back, whichever of
/// the two fields comes first.
pub proof fn lemma_readable_round_trip(t: TagView)
    ensures
        read_fields(
            seq![("key"@, t.key), ("val"@, hex_upper(t.val))],
            FieldsView { key: None, val: None },
        ) == Ok::<TagView, TagErrorView>(t),
        read_fields(
            seq![("val"@, hex_upper(t.val)), ("key"@, t.key)],
            FieldsView { key: None, val: None },
        ) == Ok::<TagView, TagErrorView>(t),
{
    reveal_strlit("key");
    reveal_strlit("val");
    assert("key"@ != "val"@) by {
        assert("key"@[0] == 'k' && "val"@[0] == 'v');
    }
    crate::hexcode::lemma_hex_round_trip(t.val);
    let start = FieldsView { key: None, val: None };
    let kv = seq![("key"@, t.key), ("val"@, hex_upper(t.val))];
    let vk = seq![("val"@, hex_upper(t.val)), ("key"@, t.key)];
    reveal_with_fuel(read_fields, 3);
    assert(kv.drop_first() =~= seq![("val"@, hex_upper(t.val))]);
    assert(kv.drop_first().drop_first() =~= Seq::<(Seq<char>, Seq<char>)>::empty());
    assert(vk.drop_first() =~= seq![("key"@, t.key)]);
    assert(vk.drop_first().drop_first() =~= Seq::<(Seq<char>, Seq<char>)>::empty());
    assert(kv[0] == ("key"@, t.key));
    assert(vk[0] == ("val"@, hex_upper(t.val)));
    assert(kv.drop_first()[0] == ("val"@, hex_upper(t.val)));
    assert(vk.drop_first()[0] == ("key"@, t.key));
}

} // verus!
