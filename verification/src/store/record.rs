//! Records and the changes that are made to them.

use crate::error::Error;
use crate::identity::Identity;
use crate::tags::{Tag, TagSet, TagView};
use crate::order::{bytes_lt, lex_lt};
use crate::assoc::{Assoc, Duplicate};
use crate::text::same_text;
use vstd::prelude::*;
use vstd::utf8::encode_utf8;

verus! {

/// The scope of a record and of an operation: the namespace that is
/// open to everyone, or the one of a user.
#[derive(Clone, Copy, Debug, Eq, Hash)]
pub enum Session {
    Global,
    Id(Identity),
}

/// The namespace that is open to everyone.
pub const GLOBAL: Session = Session::Global;

impl PartialEq for Session {
    fn eq(&self, other: &Self) -> (r: bool) {
        match (self, other) {
            (Session::Global, Session::Global) => true,
            (Session::Id(a), Session::Id(b)) => {
                proof {
                    a.lemma_view(*b);
                }
                a == b
            },
            _ => false,
        }
    }
}

impl vstd::std_specs::cmp::PartialEqSpecImpl for Session {
    open spec fn obeys_eq_spec() -> bool {
        true
    }

    open spec fn eq_spec(&self, other: &Self) -> bool {
        *self == *other
    }
}

/// The address of a record within its namespace.
#[derive(Debug)]
pub struct Path {
    text: String,
}

impl View for Path {
    type V = Seq<char>;

    closed spec fn view(&self) -> Seq<char> {
        self.text@
    }
}

/// Paths are ordered as the byte strings of their texts.
pub open spec fn path_lt(a: Seq<char>, b: Seq<char>) -> bool {
    lex_lt(encode_utf8(a), encode_utf8(b))
}

/// A path is well formed when it begins with a slash.
pub open spec fn rooted(path: Seq<char>) -> bool {
    encode_utf8(path).len() > 0 && encode_utf8(path)[0] == 47
}

impl Clone for Path {
    fn clone(&self) -> (r: Self)
        ensures
            r@ == self@,
    {
        Path { text: self.text.clone() }
    }
}

impl Path {
    /// The path with the given text.
    pub fn new(text: String) -> (r: Self)
        ensures
            r@ == text@,
    {
        Path { text }
    }

    /// The text of the path.
    pub fn as_str(&self) -> (r: &str)
        ensures
            r@ == self@,
    {
        self.text.as_str()
    }

    /// Whether the path begins with a slash.
    pub fn is_rooted(&self) -> (r: bool)
        ensures
            r == rooted(self@),
    {
        let bytes = self.text.as_str().as_bytes();
        bytes.len() > 0 && bytes[0] == 47
    }

    /// Whether this path comes strictly before `other`.
    pub fn before(&self, other: &Path) -> (r: bool)
        ensures
            r == path_lt(self@, other@),
    {
        bytes_lt(self.text.as_str().as_bytes(), other.text.as_str().as_bytes())
    }

    /// Whether two paths are the same.
    pub fn same(&self, other: &Path) -> (r: bool)
        ensures
            r == (self@ == other@),
    {
        same_text(self.text.as_str(), other.text.as_str())
    }
}

/// A value in a record.
#[derive(Debug)]
pub enum Value {
    /// Some binary data
    Bin(Vec<u8>),
    /// A text
    Str(String),
    /// A number, such as the id of another record
    Int(u64),
}

/// What a `Value` is to a contract.
pub enum ValueView {
    Bin(Seq<u8>),
    Str(Seq<char>),
    Int(u64),
}

impl View for Value {
    type V = ValueView;

    open spec fn view(&self) -> ValueView {
        match self {
            Value::Bin(b) => ValueView::Bin(b@),
            Value::Str(s) => ValueView::Str(s@),
            Value::Int(n) => ValueView::Int(*n),
        }
    }
}

impl Clone for Value {
    fn clone(&self) -> (r: Self)
        ensures
            r@ == self@,
    {
        match self {
            Value::Bin(b) => {
                let c = b.clone();
                assert(c@ =~= b@);
                Value::Bin(c)
            },
            Value::Str(s) => Value::Str(s.clone()),
            Value::Int(n) => Value::Int(*n),
        }
    }
}

/// A change to a record.
#[derive(Debug)]
pub enum Diff {
    /// Put a value under a key that the record does not have yet.
    Insert(String, Value),
    /// Replace the value under a key that the record has.
    Update(String, Value),
    /// Take a key out that the record has.
    Delete(String),
    /// Add a tag to the record, if it does not carry it yet.
    TagAdd(Tag),
    /// Take a tag off the record, if it carries it.
    TagRemove(Tag),
}

/// What a `Diff` is to a contract.
pub enum DiffView {
    Insert(Seq<char>, ValueView),
    Update(Seq<char>, ValueView),
    Delete(Seq<char>),
    TagAdd(TagView),
    TagRemove(TagView),
}

impl View for Diff {
    type V = DiffView;

    open spec fn view(&self) -> DiffView {
        match self {
            Diff::Insert(k, v) => DiffView::Insert(k@, v@),
            Diff::Update(k, v) => DiffView::Update(k@, v@),
            Diff::Delete(k) => DiffView::Delete(k@),
            Diff::TagAdd(t) => DiffView::TagAdd(t@),
            Diff::TagRemove(t) => DiffView::TagRemove(t@),
        }
    }
}

impl Diff {
    /// A diff that puts `value` under the new key `key`.
    pub fn insert(key: &str, value: Value) -> (r: Self)
        ensures
            r@ == DiffView::Insert(key@, value@),
    {
        Diff::Insert(key.to_owned(), value)
    }

    /// A diff that replaces what stands under `key` by `value`.
    pub fn update(key: &str, value: Value) -> (r: Self)
        ensures
            r@ == DiffView::Update(key@, value@),
    {
        Diff::Update(key.to_owned(), value)
    }

    /// A diff that takes `key` out.
    pub fn delete(key: &str) -> (r: Self)
        ensures
            r@ == DiffView::Delete(key@),
    {
        Diff::Delete(key.to_owned())
    }
}

/// The keys and values of a record as a contract sees them.
pub type KvView = Map<Seq<char>, ValueView>;

/// The keys and values of a record.
pub type Kv = Assoc<Value>;

impl Duplicate for Value {
    fn duplicate(&self) -> (r: Self) {
        self.clone()
    }
}

/// Applies one change of keys. The keys stay as they are when the change
/// cannot be applied.
pub fn apply_change(kv: &mut Kv, key: String, change: Change) -> (r: Result<(), Error>)
    ensures
        match r {
            Ok(()) => changed(old(kv)@, key@, change@) == Ok::<KvView, Error>(final(kv)@),
            Err(e) => changed(old(kv)@, key@, change@) == Err::<KvView, Error>(e) && final(kv)@
                == old(kv)@,
        },
{
    let there = kv.contains_key(key.as_str());
    match change {
        Change::Insert(v) => {
            if there {
                Err(Error::InvalidPayload)
            } else {
                kv.set(key, v);
                Ok(())
            }
        },
        Change::Update(v) => {
            if there {
                kv.set(key, v);
                Ok(())
            } else {
                Err(Error::NoData)
            }
        },
        Change::Delete => {
            if kv.remove(key.as_str()) {
                Ok(())
            } else {
                Err(Error::NoData)
            }
        },
    }
}

/// What a record is to a contract.
pub struct RecordView {
    pub session: Session,
    pub path: Seq<char>,
    pub tags: Set<TagView>,
    pub version: u64,
    pub kv: KvView,
}

/// The keys, values and tags of a record.
pub struct Content {
    pub kv: KvView,
    pub tags: Set<TagView>,
}

/// What one diff makes of the content of a record, or why it cannot be
/// applied: a key can be inserted only where there is none, and replaced
/// or deleted only where there is one.
pub open spec fn apply_diff(c: Content, d: DiffView) -> Result<Content, Error> {
    match d {
        DiffView::Insert(k, v) => if c.kv.contains_key(k) {
            Err(Error::InvalidPayload)
        } else {
            Ok(Content { kv: c.kv.insert(k, v), ..c })
        },
        DiffView::Update(k, v) => if c.kv.contains_key(k) {
            Ok(Content { kv: c.kv.insert(k, v), ..c })
        } else {
            Err(Error::NoData)
        },
        DiffView::Delete(k) => if c.kv.contains_key(k) {
            Ok(Content { kv: c.kv.remove(k), ..c })
        } else {
            Err(Error::NoData)
        },
        DiffView::TagAdd(t) => Ok(Content { tags: c.tags.insert(t), ..c }),
        DiffView::TagRemove(t) => Ok(Content { tags: c.tags.remove(t), ..c }),
    }
}

/// What the diffs make of the content of a record, applied in their
/// order, or the error of the first that cannot be applied.
pub open spec fn apply_all(c: Content, diffs: Seq<DiffView>) -> Result<Content, Error>
    decreases diffs.len(),
{
    if diffs.len() == 0 {
        Ok(c)
    } else {
        match apply_all(c, diffs.drop_last()) {
            Err(e) => Err(e),
            Ok(before) => apply_diff(before, diffs.last()),
        }
    }
}

/// The diffs of `diffs`, each as its view.
pub open spec fn diff_views(diffs: Seq<Diff>) -> Seq<DiffView> {
    diffs.map_values(|d: Diff| d@)
}

/// What is done to one key.
#[derive(Debug)]
pub enum Change {
    Insert(Value),
    Update(Value),
    Delete,
}

/// What a `Change` is to a contract.
pub enum ChangeView {
    Insert(ValueView),
    Update(ValueView),
    Delete,
}

impl View for Change {
    type V = ChangeView;

    open spec fn view(&self) -> ChangeView {
        match self {
            Change::Insert(v) => ChangeView::Insert(v@),
            Change::Update(v) => ChangeView::Update(v@),
            Change::Delete => ChangeView::Delete,
        }
    }
}

/// What a change makes of the keys, or why it cannot be applied.
pub open spec fn changed(kv: KvView, key: Seq<char>, change: ChangeView) -> Result<KvView, Error> {
    match change {
        ChangeView::Insert(v) => if kv.contains_key(key) {
            Err(Error::InvalidPayload)
        } else {
            Ok(kv.insert(key, v))
        },
        ChangeView::Update(v) => if kv.contains_key(key) {
            Ok(kv.insert(key, v))
        } else {
            Err(Error::NoData)
        },
        ChangeView::Delete => if kv.contains_key(key) {
            Ok(kv.remove(key))
        } else {
            Err(Error::NoData)
        },
    }
}

/// The version of a record after one more batch.
pub open spec fn bumped(version: u64) -> u64 {
    if version < u64::MAX {
        (version + 1) as u64
    } else {
        version
    }
}

/// A record: keys and values under a path, with tags to find it by.
#[derive(Debug)]
pub struct Record {
    session: Session,
    path: Path,
    tags: TagSet,
    version: u64,
    kv: Kv,
}

impl View for Record {
    type V = RecordView;

    closed spec fn view(&self) -> RecordView {
        RecordView {
            session: self.session,
            path: self.path@,
            tags: self.tags@,
            version: self.version,
            kv: self.kv@,
        }
    }
}

impl Clone for Record {
    fn clone(&self) -> (r: Self)
        ensures
            r@ == self@,
    {
        Record {
            session: self.session,
            path: self.path.clone(),
            tags: self.tags.clone(),
            version: self.version,
            kv: self.kv.duplicate(),
        }
    }
}

impl Record {
    /// Puts a record together.
    pub fn assemble(session: Session, path: Path, tags: TagSet, version: u64, kv: Kv) -> (r: Self)
        ensures
            r@ == (RecordView { session, path: path@, tags: tags@, version, kv: kv@ }),
    {
        Record { session, path, tags, version, kv }
    }

    /// The namespace of the record.
    pub fn session(&self) -> (r: Session)
        ensures
            r == self@.session,
    {
        self.session
    }

    /// The path of the record.
    pub fn path(&self) -> (r: &Path)
        ensures
            r@ == self@.path,
    {
        &self.path
    }

    /// The tags of the record.
    pub fn tags(&self) -> (r: &TagSet)
        ensures
            r@ == self@.tags,
    {
        &self.tags
    }

    /// How often the record was written.
    pub fn version(&self) -> (r: u64)
        ensures
            r == self@.version,
    {
        self.version
    }

    /// The keys and values of the record.
    pub fn kv(&self) -> (r: &Kv)
        ensures
            r@ == self@.kv,
    {
        &self.kv
    }
}

} // verus!
