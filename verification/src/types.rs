//! Entries, tags and tag filters.

use vstd::prelude::*;

verus! {

/// The identifier that the database assigns to a profile.
pub type ProfileId = i64;

/// The number of entries in a full page of a scan.
pub const PAGE_SIZE: usize = 32;

/// The kind of an entry. The code of each kind is persisted.
#[derive(Clone, Copy, Debug, PartialEq, Eq, Structural)]
pub enum EntryKind {
    General,
    Key,
    Item,
}

impl EntryKind {
    /// The persisted code of a kind.
    pub open spec fn spec_code(self) -> i16 {
        match self {
            EntryKind::General => 0,
            EntryKind::Key => 1,
            EntryKind::Item => 2,
        }
    }

    /// The persisted code of this kind.
    pub fn code(self) -> (c: i16)
        ensures
            c == self.spec_code(),
    {
        match self {
            EntryKind::General => 0,
            EntryKind::Key => 1,
            EntryKind::Item => 2,
        }
    }
}

/// What an update does to an entry.
#[derive(Clone, Copy, Debug, PartialEq, Eq, Structural)]
pub enum EntryOperation {
    Insert,
    Replace,
    Remove,
}

/// A tag of an entry. The name of a tag is always stored encrypted; its value is
/// stored encrypted or in plain text.
#[derive(Clone, Debug, PartialEq, Eq)]
pub enum EntryTag {
    Encrypted(String, String),
    Plaintext(String, String),
}

/// The value of a tag.
pub enum TagView {
    Encrypted(Seq<char>, Seq<char>),
    Plaintext(Seq<char>, Seq<char>),
}

impl TagView {
    pub open spec fn name(self) -> Seq<char> {
        match self {
            TagView::Encrypted(n, _) => n,
            TagView::Plaintext(n, _) => n,
        }
    }

    pub open spec fn value(self) -> Seq<char> {
        match self {
            TagView::Encrypted(_, v) => v,
            TagView::Plaintext(_, v) => v,
        }
    }
}

impl View for EntryTag {
    type V = TagView;

    open spec fn view(&self) -> TagView {
        match self {
            EntryTag::Encrypted(n, v) => TagView::Encrypted(n@, v@),
            EntryTag::Plaintext(n, v) => TagView::Plaintext(n@, v@),
        }
    }
}

impl EntryTag {
    /// The name of the tag.
    pub fn name(&self) -> (n: &str)
        ensures
            n@ == self@.name(),
    {
        match self {
            EntryTag::Encrypted(n, _) => n.as_str(),
            EntryTag::Plaintext(n, _) => n.as_str(),
        }
    }

    /// The value of the tag.
    pub fn value(&self) -> (v: &str)
        ensures
            v@ == self@.value(),
    {
        match self {
            EntryTag::Encrypted(_, v) => v.as_str(),
            EntryTag::Plaintext(_, v) => v.as_str(),
        }
    }
}

/// A tag as it is stored: the encrypted name, the value as stored, and whether
/// the value is plain text.
#[derive(Clone, Debug, PartialEq, Eq)]
pub struct EncEntryTag {
    pub name: Vec<u8>,
    pub value: Vec<u8>,
    pub plaintext: bool,
}

/// The value of a stored tag.
pub struct EncTagView {
    pub name: Seq<u8>,
    pub value: Seq<u8>,
    pub plaintext: bool,
}

impl View for EncEntryTag {
    type V = EncTagView;

    open spec fn view(&self) -> EncTagView {
        EncTagView { name: self.name@, value: self.value@, plaintext: self.plaintext }
    }
}

/// The values of a sequence of items, in order.
pub open spec fn views<T: View>(items: Seq<T>) -> Seq<T::V> {
    items.map_values(|t: T| t@)
}

/// A decrypted entry.
#[derive(Clone, Debug, PartialEq, Eq)]
pub struct Entry {
    pub category: String,
    pub name: String,
    pub value: Vec<u8>,
    pub tags: Option<Vec<EntryTag>>,
}

/// The value of an entry.
pub struct EntryView {
    pub category: Seq<char>,
    pub name: Seq<char>,
    pub value: Seq<u8>,
    pub tags: Option<Seq<TagView>>,
}

impl View for Entry {
    type V = EntryView;

    open spec fn view(&self) -> EntryView {
        EntryView {
            category: self.category@,
            name: self.name@,
            value: self.value@,
            tags: match self.tags {
                Some(tags) => Some(views(tags@)),
                None => None,
            },
        }
    }
}

impl Entry {
    /// An entry made of the given parts.
    pub fn new(category: String, name: String, value: Vec<u8>, tags: Option<Vec<EntryTag>>) -> (e:
        Entry)
        ensures
            e.category == category,
            e.name == name,
            e.value == value,
            e.tags == tags,
    {
        Entry { category, name, value, tags }
    }
}

/// The name of a tag in a filter, marked by how the value of that tag is stored.
#[derive(Clone, Debug, PartialEq, Eq)]
pub enum TagName {
    Encrypted(String),
    Plaintext(String),
}

impl TagName {
    /// Whether the value of the named tag is stored in plain text.
    pub open spec fn spec_is_plaintext(self) -> bool {
        self is Plaintext
    }

    /// The text of the name.
    pub open spec fn text(self) -> Seq<char> {
        match self {
            TagName::Encrypted(n) => n@,
            TagName::Plaintext(n) => n@,
        }
    }

    /// Whether the value of the named tag is stored in plain text.
    pub fn is_plaintext(&self) -> (b: bool)
        ensures
            b == self.spec_is_plaintext(),
    {
        match self {
            TagName::Encrypted(_) => false,
            TagName::Plaintext(_) => true,
        }
    }

    /// The text of the name.
    pub fn as_str(&self) -> (s: &str)
        ensures
            s@ == self.text(),
    {
        match self {
            TagName::Encrypted(n) => n.as_str(),
            TagName::Plaintext(n) => n.as_str(),
        }
    }
}

/// A comparison of a tag value with a given value.
#[derive(Clone, Copy, Debug, PartialEq, Eq, Structural)]
pub enum CompareOp {
    Eq,
    Neq,
    Gt,
    Gte,
    Lt,
    Lte,
    Like,
}

impl CompareOp {
    /// Whether the comparison can be made on encrypted values: equality and
    /// inequality can, comparisons of order and patterns cannot.
    pub open spec fn spec_on_ciphertext(self) -> bool {
        self is Eq || self is Neq
    }

    pub fn on_ciphertext(self) -> (b: bool)
        ensures
            b == self.spec_on_ciphertext(),
    {
        match self {
            CompareOp::Eq => true,
            CompareOp::Neq => true,
            _ => false,
        }
    }
}

/// A condition on the tags of an entry.
#[derive(Debug, PartialEq, Eq)]
pub enum TagFilter {
    Eq(TagName, String),
    Neq(TagName, String),
    Gt(TagName, String),
    Gte(TagName, String),
    Lt(TagName, String),
    Lte(TagName, String),
    Like(TagName, String),
    In(TagName, Vec<String>),
    Exist(Vec<TagName>),
    And(Vec<TagFilter>),
    Or(Vec<TagFilter>),
    Not(Box<TagFilter>),
}

} // verus!
