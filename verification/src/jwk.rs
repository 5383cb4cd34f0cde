//! JSON Web Keys: a key as JSON text, or as the parts that the text names.

use vstd::prelude::*;
use vstd::string::*;
use crate::error::{Error, ErrorKind};

verus! {

/// `serde_json::Value`: the parsed form of a JSON text. Nothing is known of
/// what is inside a value but what `json_members` names.
#[verifier::external_type_specification]
#[verifier::external_body]
pub struct ExJsonValue(serde_json::Value);

/// What a member of a JSON object holds, as far as a key reads it.
#[derive(Clone, Debug, PartialEq, Eq)]
pub enum JsonMember {
    /// A string.
    Text(String),
    /// `null`.
    Null,
    /// Anything else.
    Other,
}

/// The value of a member of a JSON object.
pub enum MemberView {
    Text(Seq<char>),
    Null,
    Other,
}

impl View for JsonMember {
    type V = MemberView;

    open spec fn view(&self) -> MemberView {
        match self {
            JsonMember::Text(s) => MemberView::Text(s@),
            JsonMember::Null => MemberView::Null,
            JsonMember::Other => MemberView::Other,
        }
    }
}

/// The members of a parsed JSON value by name, each as `serde_json::Value::get`
/// finds it; a value that is no object has none.
pub uninterp spec fn json_members(value: serde_json::Value) -> Map<Seq<char>, MemberView>;

/// The members of the JSON value that `serde_json::from_str` reads from a
/// text, if it reads one.
pub uninterp spec fn json_text_members(text: Seq<char>) -> Option<Map<Seq<char>, MemberView>>;

/// Calls `serde_json::from_str` for a `serde_json::Value`. It parses a JSON
/// text: the members of the value are those that the text denotes, and a text
/// that is no JSON gives nothing.
#[verifier::external_body]
fn parse_json(text: &str) -> (out: Option<serde_json::Value>)
    ensures
        match out {
            Some(value) => json_text_members(text@) == Some(json_members(value)),
            None => json_text_members(text@) is None,
        },
{
    serde_json::from_str::<serde_json::Value>(text).ok()
}

/// Calls `serde_json::Value::get` with a name. It looks a member of an object
/// up: a name that the value does not hold gives nothing.
#[verifier::external_body]
fn json_get(value: &serde_json::Value, name: &str) -> (out: Option<JsonMember>)
    ensures
        match out {
            Some(member) => json_members(*value).contains_key(name@) && json_members(*value)[name@]
                == member@,
            None => !json_members(*value).contains_key(name@),
        },
{
    match value.get(name) {
        None => None,
        Some(serde_json::Value::String(s)) => Some(JsonMember::Text(s.clone())),
        Some(serde_json::Value::Null) => Some(JsonMember::Null),
        Some(_) => Some(JsonMember::Other),
    }
}

/// Calls `zeroize::Zeroize::zeroize` on a `String`. It overwrites the text
/// with zeros and leaves the string empty.
#[verifier::external_body]
fn zeroize_string(text: &mut String)
    ensures
        final(text)@ == Seq::<char>::empty(),
{
    zeroize::Zeroize::zeroize(text)
}

/// The parts of a JSON Web Key: the key type, and what the key type calls for
/// of curve, coordinates, private key and symmetric key.
#[derive(Clone, Debug, PartialEq, Eq)]
pub struct JwkParts {
    pub kty: String,
    pub crv: Option<String>,
    pub x: Option<String>,
    pub y: Option<String>,
    pub d: Option<String>,
    pub k: Option<String>,
}

/// The value of the parts of a key.
pub struct JwkPartsView {
    pub kty: Seq<char>,
    pub crv: Option<Seq<char>>,
    pub x: Option<Seq<char>>,
    pub y: Option<Seq<char>>,
    pub d: Option<Seq<char>>,
    pub k: Option<Seq<char>>,
}

/// The value of an optional text.
pub open spec fn opt_text(text: Option<String>) -> Option<Seq<char>> {
    match text {
        Some(t) => Some(t@),
        None => None,
    }
}

impl View for JwkParts {
    type V = JwkPartsView;

    open spec fn view(&self) -> JwkPartsView {
        JwkPartsView {
            kty: self.kty@,
            crv: opt_text(self.crv),
            x: opt_text(self.x),
            y: opt_text(self.y),
            d: opt_text(self.d),
            k: opt_text(self.k),
        }
    }
}

/// The value of an optional member.
pub open spec fn opt_member(member: Option<JsonMember>) -> Option<MemberView> {
    match member {
        Some(m) => Some(m@),
        None => None,
    }
}

/// The member of an object with the given name, if the object has one.
pub open spec fn member_named(members: Map<Seq<char>, MemberView>, name: Seq<char>) -> Option<
    MemberView,
> {
    if members.contains_key(name) {
        Some(members[name])
    } else {
        None
    }
}

/// What an optional part reads from a member: a string is the part, a
/// missing member or `null` is no part, anything else is an error.
pub open spec fn optional_part(member: Option<MemberView>) -> Result<Option<Seq<char>>, Error> {
    match member {
        Some(MemberView::Text(t)) => Ok(Some(t)),
        Some(MemberView::Null) => Ok(None),
        Some(MemberView::Other) => Err(Error { kind: ErrorKind::Input }),
        None => Ok(None),
    }
}

/// The parts that six members give: `kty` must be a string, and each of
/// `crv`, `x`, `y`, `d` and `k` a string, `null` or missing.
pub open spec fn parts_given(
    kty: Option<MemberView>,
    crv: Option<MemberView>,
    x: Option<MemberView>,
    y: Option<MemberView>,
    d: Option<MemberView>,
    k: Option<MemberView>,
) -> Result<JwkPartsView, Error> {
    let bad = Err::<JwkPartsView, Error>(Error { kind: ErrorKind::Input });
    match kty {
        Some(MemberView::Text(kty)) => match (
            optional_part(crv),
            optional_part(x),
            optional_part(y),
            optional_part(d),
            optional_part(k),
        ) {
            (Ok(crv), Ok(x), Ok(y), Ok(d), Ok(k)) => Ok(JwkPartsView { kty, crv, x, y, d, k }),
            _ => bad,
        },
        _ => bad,
    }
}

/// The parts that the members of an object give. Members with other names
/// are passed over.
pub open spec fn parts_of(members: Map<Seq<char>, MemberView>) -> Result<JwkPartsView, Error> {
    parts_given(
        member_named(members, "kty"@),
        member_named(members, "crv"@),
        member_named(members, "x"@),
        member_named(members, "y"@),
        member_named(members, "d"@),
        member_named(members, "k"@),
    )
}

fn read_optional(member: Option<JsonMember>) -> (out: Result<Option<String>, Error>)
    ensures
        match out {
            Ok(part) => optional_part(opt_member(member)) == Ok::<Option<Seq<char>>, Error>(
                opt_text(part),
            ),
            Err(e) => optional_part(opt_member(member)) == Err::<Option<Seq<char>>, Error>(e),
        },
{
    match member {
        None => Ok(None),
        Some(JsonMember::Text(t)) => Ok(Some(t)),
        Some(JsonMember::Null) => Ok(None),
        Some(JsonMember::Other) => Err(Error::new(ErrorKind::Input)),
    }
}

/// Makes the parts of a key of the members `kty`, `crv`, `x`, `y`, `d` and
/// `k` of a JSON object, each as far as the object has it.
pub fn parts_from_members(
    kty: Option<JsonMember>,
    crv: Option<JsonMember>,
    x: Option<JsonMember>,
    y: Option<JsonMember>,
    d: Option<JsonMember>,
    k: Option<JsonMember>,
) -> (out: Result<JwkParts, Error>)
    ensures
        match out {
            Ok(parts) => parts_given(
                opt_member(kty),
                opt_member(crv),
                opt_member(x),
                opt_member(y),
                opt_member(d),
                opt_member(k),
            ) == Ok::<JwkPartsView, Error>(parts@),
            Err(e) => parts_given(
                opt_member(kty),
                opt_member(crv),
                opt_member(x),
                opt_member(y),
                opt_member(d),
                opt_member(k),
            ) == Err::<JwkPartsView, Error>(e),
        },
{
    let kty = match kty {
        Some(JsonMember::Text(t)) => t,
        _ => {
            return Err(Error::new(ErrorKind::Input));
        },
    };
    let crv = read_optional(crv)?;
    let x = read_optional(x)?;
    let y = read_optional(y)?;
    let d = read_optional(d)?;
    let k = read_optional(k)?;
    Ok(JwkParts { kty, crv, x, y, d, k })
}

fn parts_from_json(value: &serde_json::Value) -> (out: Result<JwkParts, Error>)
    ensures
        match out {
            Ok(parts) => parts_of(json_members(*value)) == Ok::<JwkPartsView, Error>(parts@),
            Err(e) => parts_of(json_members(*value)) == Err::<JwkPartsView, Error>(e),
        },
{
    parts_from_members(
        json_get(value, "kty"),
        json_get(value, "crv"),
        json_get(value, "x"),
        json_get(value, "y"),
        json_get(value, "d"),
        json_get(value, "k"),
    )
}

fn clone_text(text: &Option<String>) -> (out: Option<String>)
    ensures
        out == *text,
{
    match text {
        Some(t) => Some(t.clone()),
        None => None,
    }
}

/// A JSON Web Key, as its text or as its parts.
#[derive(Clone, Debug, PartialEq, Eq)]
pub enum Jwk {
    Encoded(String),
    Parts(JwkParts),
}

impl Jwk {
    /// The parts of the key: those that it holds, or those that its text
    /// denotes. A text that is no JSON, or that does not give the parts of a
    /// key, is an `Input` error.
    pub open spec fn spec_parts(self) -> Result<JwkPartsView, Error> {
        match self {
            Jwk::Encoded(text) => match json_text_members(text@) {
                Some(members) => parts_of(members),
                None => Err(Error { kind: ErrorKind::Input }),
            },
            Jwk::Parts(parts) => Ok(parts@),
        }
    }

    /// The parts of the key.
    pub fn to_parts(&self) -> (out: Result<JwkParts, Error>)
        ensures
            match out {
                Ok(parts) => self.spec_parts() == Ok::<JwkPartsView, Error>(parts@),
                Err(e) => self.spec_parts() == Err::<JwkPartsView, Error>(e),
            },
            *self matches Jwk::Parts(p) ==> out == Ok::<JwkParts, Error>(p),
    {
        match self {
            Jwk::Encoded(text) => match parse_json(text.as_str()) {
                Some(value) => parts_from_json(&value),
                None => Err(Error::new(ErrorKind::Input)),
            },
            Jwk::Parts(p) => Ok(
                JwkParts {
                    kty: p.kty.clone(),
                    crv: clone_text(&p.crv),
                    x: clone_text(&p.x),
                    y: clone_text(&p.y),
                    d: clone_text(&p.d),
                    k: clone_text(&p.k),
                },
            ),
        }
    }

    /// The text of the key, where the key is held as text.
    pub fn as_opt_str(&self) -> (out: Option<&str>)
        ensures
            match self {
                Jwk::Encoded(text) => out matches Some(s) && s@ == text@,
                Jwk::Parts(_) => out is None,
            },
    {
        match self {
            Jwk::Encoded(s) => Some(s.as_str()),
            Jwk::Parts(_) => None,
        }
    }

    /// Erases the text of a key that is held as text; the parts of a key are
    /// left as they are.
    pub fn zeroize(&mut self)
        ensures
            match *old(self) {
                Jwk::Encoded(_) => *final(self) matches Jwk::Encoded(text) && text@.len() == 0,
                Jwk::Parts(_) => *final(self) == *old(self),
            },
    {
        match self {
            Jwk::Encoded(s) => zeroize_string(s),
            Jwk::Parts(_) => (),
        }
    }
}

impl From<String> for Jwk {
    fn from(jwk: String) -> (out: Jwk) {
        Jwk::Encoded(jwk)
    }
}

impl vstd::std_specs::convert::FromSpecImpl<String> for Jwk {
    open spec fn obeys_from_spec() -> bool {
        true
    }

    open spec fn from_spec(jwk: String) -> Jwk {
        Jwk::Encoded(jwk)
    }
}

impl From<JwkParts> for Jwk {
    fn from(jwk: JwkParts) -> (out: Jwk) {
        Jwk::Parts(jwk)
    }
}

impl vstd::std_specs::convert::FromSpecImpl<JwkParts> for Jwk {
    open spec fn obeys_from_spec() -> bool {
        true
    }

    open spec fn from_spec(jwk: JwkParts) -> Jwk {
        Jwk::Parts(jwk)
    }
}

/// What a key is written for.
#[derive(Clone, Copy, Debug, PartialEq, Eq, Structural)]
pub enum JwkEncoderMode {
    /// The public part of the key.
    PublicKey,
    /// The key with its secret part.
    SecretKey,
}

/// The members of a JSON object under construction: names and values, in order.
pub type Members = Seq<(Seq<char>, Seq<char>)>;

/// The text of one member, behind the brace that opens the object or behind
/// the comma that follows the member before it. Names and values are written
/// as they are.
pub open spec fn member_text(first: bool, name: Seq<char>, value: Seq<char>) -> Seq<char> {
    (if first {
        "{\""@
    } else {
        ",\""@
    }) + name + "\":\""@ + value + "\""@
}

/// The text of an object up to its last member.
pub open spec fn open_text(members: Members) -> Seq<char>
    decreases members.len(),
{
    if members.len() == 0 {
        Seq::empty()
    } else {
        open_text(members.drop_last()) + member_text(
            members.len() == 1,
            members.last().0,
            members.last().1,
        )
    }
}

/// The text of an object: its members in order between braces. No members
/// give the empty text.
pub open spec fn jwk_text(members: Members) -> Seq<char> {
    if members.len() == 0 {
        Seq::empty()
    } else {
        open_text(members) + "}"@
    }
}

/// A writer of the JSON text of a key, member by member.
pub struct JwkEncoder {
    buffer: String,
    empty: bool,
    mode: JwkEncoderMode,
    members: Ghost<Members>,
}

impl JwkEncoder {
    /// The invariant of the writer: its text is that of its members.
    pub closed spec fn well_formed(&self) -> bool {
        self.buffer@ == open_text(self.members@) && self.empty == (self.members@.len() == 0)
    }

    /// The members written so far.
    pub closed spec fn members(&self) -> Members {
        self.members@
    }

    /// What the key is written for.
    pub closed spec fn spec_mode(&self) -> JwkEncoderMode {
        self.mode
    }

    /// A writer that has written nothing.
    pub fn new(mode: JwkEncoderMode) -> (enc: JwkEncoder)
        ensures
            enc.well_formed(),
            enc.members() == Members::empty(),
            enc.spec_mode() == mode,
    {
        JwkEncoder { buffer: String::new(), empty: true, mode, members: Ghost(Seq::empty()) }
    }

    /// What the key is written for.
    pub fn mode(&self) -> (mode: JwkEncoderMode)
        ensures
            mode == self.spec_mode(),
    {
        self.mode
    }

    /// Whether the key is written with its secret part.
    pub fn is_secret(&self) -> (secret: bool)
        ensures
            secret == (self.spec_mode() is SecretKey),
    {
        match self.mode {
            JwkEncoderMode::SecretKey => true,
            JwkEncoderMode::PublicKey => false,
        }
    }

    /// Writes one member.
    pub fn add_str(&mut self, name: &str, value: &str)
        requires
            old(self).well_formed(),
        ensures
            final(self).well_formed(),
            final(self).spec_mode() == old(self).spec_mode(),
            final(self).members() == old(self).members().push((name@, value@)),
    {
        if self.empty {
            self.buffer.append("{\"");
            self.empty = false;
        } else {
            self.buffer.append(",\"");
        }
        self.buffer.append(name);
        self.buffer.append("\":\"");
        self.buffer.append(value);
        self.buffer.append("\"");
        proof {
            let before = self.members@;
            self.members@ = before.push((name@, value@));
            assert(self.members@.drop_last() =~= before);
            assert(self.buffer@ =~= open_text(before) + member_text(
                before.len() == 0,
                name@,
                value@,
            ));
        }
    }

    /// Ends the object and hands out its text.
    pub fn finalize(self) -> (text: String)
        requires
            self.well_formed(),
        ensures
            text@ == jwk_text(self.members()),
    {
        let mut text = self.buffer;
        if !self.empty {
            text.append("}");
        }
        text
    }
}

/// Makes a key of what a writer holds once the key was written to it: the
/// text of the writer, or the error of the writing.
pub fn finish_jwk(written: Result<(), Error>, buffer: JwkEncoder) -> (out: Result<Jwk, Error>)
    requires
        buffer.well_formed(),
    ensures
        match written {
            Ok(()) => out matches Ok(Jwk::Encoded(text)) && text@ == jwk_text(buffer.members()),
            Err(e) => out == Err::<Jwk, Error>(e),
        },
{
    match written {
        Ok(()) => Ok(Jwk::Encoded(buffer.finalize())),
        Err(e) => Err(e),
    }
}

/// A key that can be written as a JSON Web Key.
pub trait ToJwk {
    /// The members that the key writes in the given mode, or the error with
    /// which it refuses to be written.
    spec fn jwk_members(&self, mode: JwkEncoderMode) -> Result<Members, Error>;

    /// Writes the members of the key.
    fn to_jwk_buffer(&self, buffer: &mut JwkEncoder) -> (out: Result<(), Error>)
        requires
            old(buffer).well_formed(),
        ensures
            final(buffer).well_formed(),
            final(buffer).spec_mode() == old(buffer).spec_mode(),
            match self.jwk_members(old(buffer).spec_mode()) {
                Ok(members) => out is Ok && final(buffer).members() == old(buffer).members()
                    + members,
                Err(e) => out == Err::<(), Error>(e),
            },
    ;

    /// The public part of the key as a JSON Web Key.
    fn to_jwk_public(&self) -> (out: Result<Jwk, Error>)
        ensures
            match self.jwk_members(JwkEncoderMode::PublicKey) {
                Ok(members) => out matches Ok(Jwk::Encoded(text)) && text@ == jwk_text(members),
                Err(e) => out == Err::<Jwk, Error>(e),
            },
    {
        let mut buffer = JwkEncoder::new(JwkEncoderMode::PublicKey);
        let written = self.to_jwk_buffer(&mut buffer);
        proof {
            if let Ok(members) = self.jwk_members(JwkEncoderMode::PublicKey) {
                assert(Members::empty() + members =~= members);
            }
        }
        finish_jwk(written, buffer)
    }

    /// The key with its secret part as a JSON Web Key.
    fn to_jwk_secret(&self) -> (out: Result<Jwk, Error>)
        ensures
            match self.jwk_members(JwkEncoderMode::SecretKey) {
                Ok(members) => out matches Ok(Jwk::Encoded(text)) && text@ == jwk_text(members),
                Err(e) => out == Err::<Jwk, Error>(e),
            },
    {
        let mut buffer = JwkEncoder::new(JwkEncoderMode::SecretKey);
        let written = self.to_jwk_buffer(&mut buffer);
        proof {
            if let Ok(members) = self.jwk_members(JwkEncoderMode::SecretKey) {
                assert(Members::empty() + members =~= members);
            }
        }
        finish_jwk(written, buffer)
    }
}

/// A key that can be made from a JSON Web Key.
pub trait FromJwk: Sized {
    /// The key that the parts give, or the error with which they are refused.
    spec fn from_parts(parts: JwkParts) -> Result<Self, Error>;

    /// Makes the key from the parts of a JSON Web Key.
    fn from_jwk_parts(parts: JwkParts) -> (out: Result<Self, Error>)
        ensures
            out == Self::from_parts(parts),
    ;

    /// Makes the key from a JSON Web Key.
    fn from_jwk(jwk: Jwk) -> (out: Result<Self, Error>)
        ensures
            match jwk.spec_parts() {
                Ok(view) => exists|parts: JwkParts|
                    parts@ == view && out == #[trigger] Self::from_parts(parts),
                Err(e) => out == Err::<Self, Error>(e),
            },
    {
        match jwk.to_parts() {
            Ok(parts) => Self::from_jwk_parts(parts),
            Err(e) => Err(e),
        }
    }
}

/// One optional member: the member, if the part is there.
pub open spec fn optional_member(name: Seq<char>, part: Option<String>) -> Members {
    match part {
        Some(value) => seq![(name, value@)],
        None => Seq::empty(),
    }
}

impl JwkParts {
    /// The members of the parts: `kty`; with a curve, `crv` and then `x` and
    /// `y`, and `d` where the secret part is written; and `k` where the
    /// secret part is written.
    pub open spec fn members(self, secret: bool) -> Members {
        seq![("kty"@, self.kty@)] + (match self.crv {
            Some(crv) => seq![("crv"@, crv@)] + optional_member("x"@, self.x) + optional_member(
                "y"@,
                self.y,
            ) + (if secret {
                optional_member("d"@, self.d)
            } else {
                Seq::empty()
            }),
            None => Seq::empty(),
        }) + (if secret {
            optional_member("k"@, self.k)
        } else {
            Seq::empty()
        })
    }
}

fn add_optional(buffer: &mut JwkEncoder, name: &str, part: &Option<String>)
    requires
        old(buffer).well_formed(),
    ensures
        final(buffer).well_formed(),
        final(buffer).spec_mode() == old(buffer).spec_mode(),
        final(buffer).members() == old(buffer).members() + optional_member(name@, *part),
{
    match part {
        Some(value) => {
            buffer.add_str(name, value.as_str());
            assert(buffer.members() =~= old(buffer).members() + optional_member(name@, *part));
        },
        None => {
            assert(buffer.members() =~= old(buffer).members() + optional_member(name@, *part));
        },
    }
}

impl ToJwk for JwkParts {
    open spec fn jwk_members(&self, mode: JwkEncoderMode) -> Result<Members, Error> {
        Ok(self.members(mode is SecretKey))
    }

    fn to_jwk_buffer(&self, buffer: &mut JwkEncoder) -> (out: Result<(), Error>) {
        let secret = buffer.is_secret();
        buffer.add_str("kty", self.kty.as_str());
        if self.crv.is_some() {
            add_optional(buffer, "crv", &self.crv);
            add_optional(buffer, "x", &self.x);
            add_optional(buffer, "y", &self.y);
            if secret {
                add_optional(buffer, "d", &self.d);
            }
        }
        if secret {
            add_optional(buffer, "k", &self.k);
        }
        assert(buffer.members() =~= old(buffer).members() + self.members(secret));
        Ok(())
    }
}

impl FromJwk for JwkParts {
    open spec fn from_parts(parts: JwkParts) -> Result<JwkParts, Error> {
        Ok(parts)
    }

    fn from_jwk_parts(parts: JwkParts) -> (out: Result<JwkParts, Error>) {
        Ok(parts)
    }
}

} // verus!
