//! The encryption boundary: what the store asks of a store key and of a wrap
//! key, and the cache of the store keys of the profiles.

use vstd::prelude::*;
use vstd::string::*;
use vstd::utf8::{decode_utf8, encode_utf8, encode_utf8_decode_utf8, encode_utf8_valid_utf8, valid_utf8};
use crate::error::{Error, ErrorKind};
use crate::text::{str_eq, string_from_utf8};
use crate::types::{views, EncEntryTag, EncTagView, EntryTag, ProfileId, TagView};

verus! {

/// A text column that is encrypted deterministically, so that the database can
/// match it for equality.
#[derive(Clone, Copy, Debug, PartialEq, Eq, Structural)]
pub enum Field {
    Category,
    Name,
    TagName,
    TagValue,
}

/// A store key: the per-profile key bundle that encrypts the columns of an entry.
///
/// Categories, names, tag names and the values of encrypted tags are encrypted
/// deterministically: their ciphertext is a function of the key, the column and
/// the text. The value of an entry is encrypted with a fresh nonce on each call.
/// Encryption may fail; decryption fails exactly on what is no ciphertext.
pub trait EntryEncryptor {
    /// The ciphertext of `text` in column `field`.
    spec fn cipher(&self, field: Field, text: Seq<char>) -> Seq<u8>;

    /// The text that `data` decrypts to in column `field`, if it is a ciphertext.
    spec fn plain(&self, field: Field, data: Seq<u8>) -> Option<Seq<char>>;

    /// The entry value that `data` decrypts to, if it is a ciphertext.
    spec fn value_plain(&self, data: Seq<u8>) -> Option<Seq<u8>>;

    /// Whether encryption under this key never fails.
    spec fn encrypts_always(&self) -> bool;

    /// Every ciphertext decrypts to the text it was made from.
    proof fn lemma_plain_cipher(&self, field: Field, text: Seq<char>)
        ensures
            self.plain(field, self.cipher(field, text)) == Some(text),
    ;

    fn encrypt_entry_category(&self, category: &str) -> (out: Result<Vec<u8>, Error>)
        ensures
            match out {
                Ok(data) => data@ == self.cipher(Field::Category, category@),
                Err(e) => e.kind == ErrorKind::Encryption,
            },
            self.encrypts_always() ==> out is Ok,
    ;

    fn encrypt_entry_name(&self, name: &str) -> (out: Result<Vec<u8>, Error>)
        ensures
            match out {
                Ok(data) => data@ == self.cipher(Field::Name, name@),
                Err(e) => e.kind == ErrorKind::Encryption,
            },
            self.encrypts_always() ==> out is Ok,
    ;

    fn encrypt_entry_value(&self, value: &[u8]) -> (out: Result<Vec<u8>, Error>)
        ensures
            match out {
                Ok(data) => self.value_plain(data@) == Some(value@),
                Err(e) => e.kind == ErrorKind::Encryption,
            },
            self.encrypts_always() ==> out is Ok,
    ;

    fn encrypt_tag_name(&self, name: &str) -> (out: Result<Vec<u8>, Error>)
        ensures
            match out {
                Ok(data) => data@ == self.cipher(Field::TagName, name@),
                Err(e) => e.kind == ErrorKind::Encryption,
            },
            self.encrypts_always() ==> out is Ok,
    ;

    fn encrypt_tag_value(&self, value: &str) -> (out: Result<Vec<u8>, Error>)
        ensures
            match out {
                Ok(data) => data@ == self.cipher(Field::TagValue, value@),
                Err(e) => e.kind == ErrorKind::Encryption,
            },
            self.encrypts_always() ==> out is Ok,
    ;

    fn decrypt_entry_name(&self, data: &[u8]) -> (out: Result<String, Error>)
        ensures
            match out {
                Ok(text) => self.plain(Field::Name, data@) == Some(text@),
                Err(e) => e.kind == ErrorKind::Encryption && self.plain(Field::Name, data@) is None,
            },
    ;

    fn decrypt_entry_value(&self, data: &[u8]) -> (out: Result<Vec<u8>, Error>)
        ensures
            match out {
                Ok(value) => self.value_plain(data@) == Some(value@),
                Err(e) => e.kind == ErrorKind::Encryption && self.value_plain(data@) is None,
            },
    ;

    fn decrypt_tag_name(&self, data: &[u8]) -> (out: Result<String, Error>)
        ensures
            match out {
                Ok(text) => self.plain(Field::TagName, data@) == Some(text@),
                Err(e) => e.kind == ErrorKind::Encryption && self.plain(Field::TagName, data@)
                    is None,
            },
    ;

    fn decrypt_tag_value(&self, data: &[u8]) -> (out: Result<String, Error>)
        ensures
            match out {
                Ok(text) => self.plain(Field::TagValue, data@) == Some(text@),
                Err(e) => e.kind == ErrorKind::Encryption && self.plain(Field::TagValue, data@)
                    is None,
            },
    ;
}

/// The text that plain bytes hold, if they are valid UTF-8.
pub open spec fn utf8_text(data: Seq<u8>) -> Option<Seq<char>> {
    if valid_utf8(data) {
        Some(decode_utf8(data))
    } else {
        None
    }
}

/// A store key that encrypts nothing: every column is stored as its UTF-8
/// bytes, every value as it is. It keeps no secret and serves where the
/// contents of the database are to be read in the clear.
#[derive(Clone, Copy, Debug, PartialEq, Eq, Structural)]
pub struct NullEncryptor;

fn decode_text(data: &[u8]) -> (out: Result<String, Error>)
    ensures
        match out {
            Ok(text) => utf8_text(data@) == Some(text@),
            Err(e) => e.kind == ErrorKind::Encryption && utf8_text(data@) is None,
        },
{
    match string_from_utf8(vstd::slice::slice_to_vec(data)) {
        Some(text) => Ok(text),
        None => Err(Error::new(ErrorKind::Encryption)),
    }
}

impl EntryEncryptor for NullEncryptor {
    open spec fn cipher(&self, field: Field, text: Seq<char>) -> Seq<u8> {
        encode_utf8(text)
    }

    open spec fn plain(&self, field: Field, data: Seq<u8>) -> Option<Seq<char>> {
        utf8_text(data)
    }

    open spec fn value_plain(&self, data: Seq<u8>) -> Option<Seq<u8>> {
        Some(data)
    }

    open spec fn encrypts_always(&self) -> bool {
        true
    }

    proof fn lemma_plain_cipher(&self, field: Field, text: Seq<char>) {
        encode_utf8_valid_utf8(text);
        encode_utf8_decode_utf8(text);
    }

    fn encrypt_entry_category(&self, category: &str) -> (out: Result<Vec<u8>, Error>) {
        Ok(category.as_bytes_vec())
    }

    fn encrypt_entry_name(&self, name: &str) -> (out: Result<Vec<u8>, Error>) {
        Ok(name.as_bytes_vec())
    }

    fn encrypt_entry_value(&self, value: &[u8]) -> (out: Result<Vec<u8>, Error>)
        ensures
            out matches Ok(data) && data@ == value@,
    {
        Ok(vstd::slice::slice_to_vec(value))
    }

    fn encrypt_tag_name(&self, name: &str) -> (out: Result<Vec<u8>, Error>) {
        Ok(name.as_bytes_vec())
    }

    fn encrypt_tag_value(&self, value: &str) -> (out: Result<Vec<u8>, Error>) {
        Ok(value.as_bytes_vec())
    }

    fn decrypt_entry_name(&self, data: &[u8]) -> (out: Result<String, Error>) {
        decode_text(data)
    }

    fn decrypt_entry_value(&self, data: &[u8]) -> (out: Result<Vec<u8>, Error>)
        ensures
            out is Ok,
    {
        Ok(vstd::slice::slice_to_vec(data))
    }

    fn decrypt_tag_name(&self, data: &[u8]) -> (out: Result<String, Error>) {
        decode_text(data)
    }

    fn decrypt_tag_value(&self, data: &[u8]) -> (out: Result<String, Error>) {
        decode_text(data)
    }
}

/// The stored form of a tag under `key`: the name encrypted, the value
/// encrypted or, for a plain-text tag, as its UTF-8 bytes.
pub open spec fn tag_cipher<K: EntryEncryptor>(key: K, tag: TagView) -> EncTagView {
    match tag {
        TagView::Encrypted(name, value) => EncTagView {
            name: key.cipher(Field::TagName, name),
            value: key.cipher(Field::TagValue, value),
            plaintext: false,
        },
        TagView::Plaintext(name, value) => EncTagView {
            name: key.cipher(Field::TagName, name),
            value: encode_utf8(value),
            plaintext: true,
        },
    }
}

/// The tag that a stored tag holds under `key`, if it can be read.
pub open spec fn tag_plain<K: EntryEncryptor>(key: K, enc: EncTagView) -> Option<TagView> {
    match key.plain(Field::TagName, enc.name) {
        None => None,
        Some(name) => if enc.plaintext {
            match utf8_text(enc.value) {
                Some(value) => Some(TagView::Plaintext(name, value)),
                None => None,
            }
        } else {
            match key.plain(Field::TagValue, enc.value) {
                Some(value) => Some(TagView::Encrypted(name, value)),
                None => None,
            }
        },
    }
}

/// The stored forms of a sequence of tags, in order.
pub open spec fn tags_cipher<K: EntryEncryptor>(key: K, tags: Seq<TagView>) -> Seq<EncTagView> {
    tags.map_values(|t: TagView| tag_cipher(key, t))
}

/// The tags that a sequence of stored tags holds, in order, if all can be read.
pub open spec fn tags_plain<K: EntryEncryptor>(key: K, enc: Seq<EncTagView>) -> Option<
    Seq<TagView>,
> {
    if forall|i: int| 0 <= i < enc.len() ==> tag_plain(key, #[trigger] enc[i]) is Some {
        Some(enc.map_values(|e: EncTagView| tag_plain(key, e).unwrap()))
    } else {
        None
    }
}

/// A stored tag holds the tag it was made from.
pub proof fn lemma_tag_round_trip<K: EntryEncryptor>(key: K, tag: TagView)
    ensures
        tag_plain(key, tag_cipher(key, tag)) == Some(tag),
{
    key.lemma_plain_cipher(Field::TagName, tag.name());
    key.lemma_plain_cipher(Field::TagValue, tag.value());
    encode_utf8_valid_utf8(tag.value());
    encode_utf8_decode_utf8(tag.value());
}

/// Stored tags hold the tags they were made from, in the same order.
pub proof fn lemma_tags_round_trip<K: EntryEncryptor>(key: K, tags: Seq<TagView>)
    ensures
        tags_plain(key, tags_cipher(key, tags)) == Some(tags),
{
    let enc = tags_cipher(key, tags);
    assert forall|i: int| 0 <= i < enc.len() implies tag_plain(key, #[trigger] enc[i]) == Some(
        tags[i],
    ) by {
        lemma_tag_round_trip(key, tags[i]);
    }
    assert(enc.map_values(|e: EncTagView| tag_plain(key, e).unwrap()) =~= tags);
}

/// Encrypts one tag for storage.
pub fn encrypt_entry_tag<K: EntryEncryptor>(key: &K, tag: &EntryTag) -> (out: Result<
    EncEntryTag,
    Error,
>)
    ensures
        match out {
            Ok(enc) => enc@ == tag_cipher(*key, tag@),
            Err(e) => e.kind == ErrorKind::Encryption,
        },
        key.encrypts_always() ==> out is Ok,
{
    match tag {
        EntryTag::Encrypted(name, value) => {
            let name = key.encrypt_tag_name(name.as_str())?;
            let value = key.encrypt_tag_value(value.as_str())?;
            Ok(EncEntryTag { name, value, plaintext: false })
        },
        EntryTag::Plaintext(name, value) => {
            let name = key.encrypt_tag_name(name.as_str())?;
            Ok(EncEntryTag { name, value: value.as_str().as_bytes_vec(), plaintext: true })
        },
    }
}

/// Encrypts the tags of an entry for storage, in order.
pub fn encrypt_entry_tags<K: EntryEncryptor>(key: &K, tags: &[EntryTag]) -> (out: Result<
    Vec<EncEntryTag>,
    Error,
>)
    ensures
        match out {
            Ok(enc) => views(enc@) == tags_cipher(*key, views(tags@)),
            Err(e) => e.kind == ErrorKind::Encryption,
        },
        key.encrypts_always() ==> out is Ok,
{
    let mut enc: Vec<EncEntryTag> = Vec::new();
    let mut i: usize = 0;
    while i < tags.len()
        invariant
            i <= tags@.len(),
            enc@.len() == i,
            forall|k: int| 0 <= k < i ==> (#[trigger] enc@[k])@ == tag_cipher(*key, tags@[k]@),
        decreases tags@.len() - i,
    {
        let one = encrypt_entry_tag(key, &tags[i])?;
        enc.push(one);
        i += 1;
    }
    assert(views(enc@) =~= tags_cipher(*key, views(tags@)));
    Ok(enc)
}

/// Reads one stored tag.
pub fn decrypt_entry_tag<K: EntryEncryptor>(key: &K, enc: &EncEntryTag) -> (out: Result<
    EntryTag,
    Error,
>)
    ensures
        match out {
            Ok(tag) => tag_plain(*key, enc@) == Some(tag@),
            Err(e) => e.kind == ErrorKind::Encryption && tag_plain(*key, enc@) is None,
        },
{
    let name = key.decrypt_tag_name(enc.name.as_slice())?;
    if enc.plaintext {
        let value = decode_text(enc.value.as_slice())?;
        Ok(EntryTag::Plaintext(name, value))
    } else {
        let value = key.decrypt_tag_value(enc.value.as_slice())?;
        Ok(EntryTag::Encrypted(name, value))
    }
}

/// Reads the stored tags of an entry, in order.
pub fn decrypt_entry_tags<K: EntryEncryptor>(key: &K, enc: &[EncEntryTag]) -> (out: Result<
    Vec<EntryTag>,
    Error,
>)
    ensures
        match out {
            Ok(tags) => tags_plain(*key, views(enc@)) == Some(views(tags@)),
            Err(e) => e.kind == ErrorKind::Encryption && tags_plain(*key, views(enc@)) is None,
        },
{
    let mut tags: Vec<EntryTag> = Vec::new();
    let mut i: usize = 0;
    while i < enc.len()
        invariant
            i <= enc@.len(),
            tags@.len() == i,
            forall|k: int|
                0 <= k < i ==> tag_plain(*key, enc@[k]@) == Some((#[trigger] tags@[k])@),
        decreases enc@.len() - i,
    {
        match decrypt_entry_tag(key, &enc[i]) {
            Ok(tag) => {
                tags.push(tag);
            },
            Err(e) => {
                assert(views(enc@)[i as int] == enc@[i as int]@);
                return Err(e);
            },
        }
        i += 1;
    }
    proof {
        let all = views(enc@);
        assert forall|k: int| 0 <= k < all.len() implies tag_plain(*key, #[trigger] all[k])
            is Some by {
            assert(tag_plain(*key, enc@[k]@) == Some(tags@[k]@));
        }
        assert(all.map_values(|e: EncTagView| tag_plain(*key, e).unwrap()) =~= views(tags@)) by {
            assert forall|k: int| 0 <= k < all.len() implies tag_plain(*key, all[k]).unwrap()
                == views(tags@)[k] by {
                assert(tag_plain(*key, enc@[k]@) == Some(tags@[k]@));
            }
        }
    }
    Ok(tags)
}

/// A wrap key: the process-level key under which store keys are kept in the
/// database. Wrapping uses a fresh nonce on each call and may fail; unwrapping
/// fails exactly on what is no wrapped store key.
pub trait WrapKey<K> {
    /// The store key that `blob` holds, if it was wrapped under this key.
    spec fn unwrapped(&self, blob: Seq<u8>) -> Option<K>;

    /// Whether wrapping under this key never fails.
    spec fn wraps_always(&self) -> bool;

    fn wrap_key(&self, key: &K) -> (out: Result<Vec<u8>, Error>)
        ensures
            match out {
                Ok(blob) => self.unwrapped(blob@) == Some(*key),
                Err(e) => e.kind == ErrorKind::Encryption,
            },
            self.wraps_always() ==> out is Ok,
    ;

    fn unwrap_key(&self, blob: &[u8]) -> (out: Result<K, Error>)
        ensures
            match out {
                Ok(key) => self.unwrapped(blob@) == Some(key),
                Err(e) => e.kind == ErrorKind::Encryption && self.unwrapped(blob@) is None,
            },
    ;
}

/// The wrap key of an unprotected store, which keeps the key that encrypts
/// nothing: the wrapped form is empty and holds no secret.
#[derive(Clone, Copy, Debug, PartialEq, Eq, Structural)]
pub struct Unprotected;

impl WrapKey<NullEncryptor> for Unprotected {
    open spec fn unwrapped(&self, blob: Seq<u8>) -> Option<NullEncryptor> {
        if blob.len() == 0 {
            Some(NullEncryptor)
        } else {
            None
        }
    }

    open spec fn wraps_always(&self) -> bool {
        true
    }

    fn wrap_key(&self, key: &NullEncryptor) -> (out: Result<Vec<u8>, Error>) {
        Ok(Vec::new())
    }

    fn unwrap_key(&self, blob: &[u8]) -> (out: Result<NullEncryptor, Error>) {
        if blob.len() == 0 {
            Ok(NullEncryptor)
        } else {
            Err(Error::new(ErrorKind::Encryption))
        }
    }
}

/// A profile whose store key is held in memory.
pub struct CachedProfile<K> {
    pub name: String,
    pub profile_id: ProfileId,
    pub key: K,
}

/// The profiles that a list of cached profiles holds, by name; of two with the
/// same name the later one counts.
pub open spec fn profile_map<K>(profiles: Seq<CachedProfile<K>>) -> Map<Seq<char>, (ProfileId, K)>
    decreases profiles.len(),
{
    if profiles.len() == 0 {
        Map::empty()
    } else {
        let last = profiles.last();
        profile_map(profiles.drop_last()).insert(last.name@, (last.profile_id, last.key))
    }
}

proof fn lemma_profile_map<K>(profiles: Seq<CachedProfile<K>>, name: Seq<char>)
    requires
        forall|i: int, j: int|
            0 <= i < j < profiles.len() ==> profiles[i].name@ != profiles[j].name@,
    ensures
        profile_map(profiles).contains_key(name) <==> exists|i: int|
            0 <= i < profiles.len() && profiles[i].name@ == name,
        forall|i: int|
            0 <= i < profiles.len() && profiles[i].name@ == name ==> profile_map(profiles)[name]
                == (profiles[i].profile_id, profiles[i].key),
    decreases profiles.len(),
{
    if profiles.len() > 0 {
        let front = profiles.drop_last();
        lemma_profile_map(front, name);
        if profile_map(profiles).contains_key(name) {
            if profiles.last().name@ == name {
                assert(profiles[profiles.len() - 1].name@ == name);
            } else {
                let i = choose|i: int| 0 <= i < front.len() && front[i].name@ == name;
                assert(profiles[i].name@ == name);
            }
        }
        assert forall|i: int|
            0 <= i < profiles.len() && profiles[i].name@ == name implies profile_map(profiles)[name]
            == (profiles[i].profile_id, profiles[i].key) by {
            if i < front.len() {
                assert(front[i].name@ == name);
            }
        }
        if exists|i: int| 0 <= i < profiles.len() && profiles[i].name@ == name {
            let i = choose|i: int| 0 <= i < profiles.len() && profiles[i].name@ == name;
            if i < front.len() {
                assert(front[i].name@ == name);
            }
        }
    }
}

/// The store keys of the profiles that were used so far, by profile name,
/// together with the wrap key under which the database keeps them.
///
/// What the cache holds for a name never changes: a rekey makes a new cache.
pub struct KeyCache<W, K> {
    profiles: Vec<CachedProfile<K>>,
    wrap_key: W,
}

impl<W: WrapKey<K>, K> KeyCache<W, K> {
    /// The invariant of the cache: no two of its profiles have the same name.
    pub closed spec fn well_formed(&self) -> bool {
        forall|i: int, j: int|
            0 <= i < j < self.profiles@.len() ==> self.profiles@[i].name@ != self.profiles@[j].name@
    }

    /// The cached profiles: for each name, the identifier and the store key.
    pub closed spec fn profiles(&self) -> Map<Seq<char>, (ProfileId, K)> {
        profile_map(self.profiles@)
    }

    /// The wrap key of the cache.
    pub closed spec fn spec_wrap_key(&self) -> W {
        self.wrap_key
    }

    /// An empty cache that unwraps with `wrap_key`.
    pub fn new(wrap_key: W) -> (cache: Self)
        ensures
            cache.well_formed(),
            cache.profiles() == Map::<Seq<char>, (ProfileId, K)>::empty(),
            cache.spec_wrap_key() == wrap_key,
    {
        KeyCache { profiles: Vec::new(), wrap_key }
    }

    /// The wrap key of the cache.
    pub fn wrap_key(&self) -> (w: &W)
        ensures
            *w == self.spec_wrap_key(),
    {
        &self.wrap_key
    }

    /// Looks a profile up by name.
    pub fn get_profile(&self, name: &str) -> (out: Option<(ProfileId, &K)>)
        requires
            self.well_formed(),
        ensures
            match out {
                Some((profile_id, key)) => self.profiles().contains_key(name@)
                    && self.profiles()[name@] == (profile_id, *key),
                None => !self.profiles().contains_key(name@),
            },
    {
        let mut i: usize = 0;
        while i < self.profiles.len()
            invariant
                self.well_formed(),
                i <= self.profiles@.len(),
                forall|k: int| 0 <= k < i ==> self.profiles@[k].name@ != name@,
            decreases self.profiles@.len() - i,
        {
            if str_eq(self.profiles[i].name.as_str(), name) {
                proof {
                    lemma_profile_map(self.profiles@, name@);
                }
                return Some((self.profiles[i].profile_id, &self.profiles[i].key));
            }
            i += 1;
        }
        proof {
            lemma_profile_map(self.profiles@, name@);
        }
        None
    }

    /// Records the identifier and store key of a profile. A name that the
    /// cache already holds keeps what it has.
    pub fn add_profile(&mut self, name: String, profile_id: ProfileId, key: K)
        requires
            old(self).well_formed(),
        ensures
            final(self).well_formed(),
            final(self).profiles() == added(old(self).profiles(), name@, (profile_id, key)),
            final(self).spec_wrap_key() == old(self).spec_wrap_key(),
    {
        proof {
            lemma_profile_map(self.profiles@, name@);
        }
        let known = self.get_profile(name.as_str()).is_some();
        if !known {
            let ghost before = self.profiles@;
            self.profiles.push(CachedProfile { name, profile_id, key });
            assert(self.profiles@.drop_last() =~= before);
        }
    }

    /// Unwraps a store key as the database keeps it.
    pub fn load_key(&self, blob: &[u8]) -> (out: Result<K, Error>)
        ensures
            match out {
                Ok(key) => self.spec_wrap_key().unwrapped(blob@) == Some(key),
                Err(e) => e.kind == ErrorKind::Encryption && self.spec_wrap_key().unwrapped(blob@)
                    is None,
            },
    {
        self.wrap_key.unwrap_key(blob)
    }
}

/// Adding a profile twice leaves the cache as adding it once, and what the
/// cache held for any name before is what it holds after.
pub proof fn lemma_add_profile_stable<K>(
    before: Map<Seq<char>, (ProfileId, K)>,
    name: Seq<char>,
    entry: (ProfileId, K),
    other: (ProfileId, K),
)
    ensures
        added(added(before, name, entry), name, other) == added(before, name, entry),
        forall|n: Seq<char>|
            before.contains_key(n) ==> added(before, name, entry).contains_key(n) && added(
                before,
                name,
                entry,
            )[n] == before[n],
{
}

/// The profiles of a cache after one is added: a name that is already there
/// keeps what it has.
pub open spec fn added<K>(
    before: Map<Seq<char>, (ProfileId, K)>,
    name: Seq<char>,
    entry: (ProfileId, K),
) -> Map<Seq<char>, (ProfileId, K)> {
    if before.contains_key(name) {
        before
    } else {
        before.insert(name, entry)
    }
}

} // verus!
