//! Identifiers: 128-bit unique identifiers and 256-bit digests.
use vstd::prelude::*;

use crate::bytes::{
    append_bytes, be_bytes, be_decode, be_encode, be_value, lemma_be_bounds, lemma_be_bytes_len,
    lemma_be_bytes_of_be_value, lemma_be_value_of_be_bytes,
};
use crate::text::{hex_text, push_hex};

verus! {

/// The identifier has the version and the variant of a random one.
pub open spec fn is_random_uuid(value: u128) -> bool {
    &&& value / 0x1000_0000_0000_0000_0000 % 16 == 4
    &&& value / 0x4000_0000_0000_0000 % 4 == 2
}

/// `uuid::Uuid::new_v4`: a random identifier, of which nothing is promised but its version, which
/// is 4, and its variant, whose two bits are 10.
#[verifier::external_body]
pub(crate) fn random_uuid() -> (value: u128)
    ensures
        is_random_uuid(value),
{
    uuid::Uuid::new_v4().as_u128()
}

/// The identifier that `uuid::Uuid::parse_str` reads from a text, or what it says of a text from
/// which it reads none.
pub uninterp spec fn parsed_uuid(text: Seq<char>) -> Result<u128, Seq<char>>;

/// `uuid::Uuid::parse_str`: reads the simple, hyphenated, braced and URN forms. The result, with
/// the text of the error where there is one, is a function of the text, named `parsed_uuid`.
#[verifier::external_body]
pub(crate) fn parse_uuid_text(text: &str) -> (result: Result<u128, String>)
    ensures
        match result {
            Ok(value) => parsed_uuid(text@) == Ok::<u128, Seq<char>>(value),
            Err(message) => parsed_uuid(text@) == Err::<u128, Seq<char>>(message@),
        },
{
    uuid::Uuid::parse_str(text).map(|value| value.as_u128()).map_err(|error| error.to_string())
}

/// The sixteen bytes of an identifier, most significant first.
pub open spec fn uuid_bytes(value: u128) -> Seq<u8> {
    be_bytes(value as nat, 16)
}

/// The hyphenated lowercase text of an identifier.
pub open spec fn hyphenated(value: u128) -> Seq<char> {
    let bytes = uuid_bytes(value);
    hex_text(bytes.subrange(0, 4)) + seq!['-'] + hex_text(bytes.subrange(4, 6)) + seq!['-']
        + hex_text(bytes.subrange(6, 8)) + seq!['-'] + hex_text(bytes.subrange(8, 10)) + seq!['-']
        + hex_text(bytes.subrange(10, 16))
}

/// The identifier whose bytes are `bytes`.
pub open spec fn uuid_of_bytes(bytes: Seq<u8>) -> u128 {
    be_value(bytes) as u128
}

/// Sixteen bytes and the identifier that they spell determine each other.
pub proof fn lemma_uuid_bytes(value: u128)
    ensures
        uuid_bytes(value).len() == 16,
        uuid_of_bytes(uuid_bytes(value)) == value,
{
    lemma_be_bounds();
    lemma_be_bytes_len(value as nat, 16);
    lemma_be_value_of_be_bytes(value as nat, 16);
}

/// Any sixteen bytes are the bytes of the identifier that they spell.
pub proof fn lemma_uuid_of_bytes(bytes: Seq<u8>)
    requires
        bytes.len() == 16,
    ensures
        uuid_bytes(uuid_of_bytes(bytes)) == bytes,
        be_value(bytes) <= u128::MAX,
{
    lemma_be_bounds();
    lemma_be_bytes_of_be_value(bytes);
}

fn uuid_to_array(value: u128) -> (bytes: [u8; 16])
    ensures
        bytes@ == uuid_bytes(value),
{
    let encoded: Vec<u8> = be_encode(value, 16);
    proof {
        lemma_uuid_bytes(value);
    }
    let mut bytes: [u8; 16] = [0u8; 16];
    let mut index: usize = 0;
    while index < 16
        invariant
            index <= 16,
            encoded@.len() == 16,
            forall|i: int| 0 <= i < index ==> bytes@[i] == encoded@[i],
        decreases 16 - index,
    {
        bytes[index] = encoded[index];
        index += 1;
    }
    assert(bytes@ =~= encoded@);
    bytes
}

fn uuid_to_text(value: u128) -> (text: String)
    ensures
        text@ == hyphenated(value),
{
    let bytes: [u8; 16] = uuid_to_array(value);
    let all: &[u8] = bytes.as_slice();
    let mut text: String = String::new();
    push_hex(&mut text, vstd::slice::slice_subrange(all, 0, 4));
    text.push('-');
    push_hex(&mut text, vstd::slice::slice_subrange(all, 4, 6));
    text.push('-');
    push_hex(&mut text, vstd::slice::slice_subrange(all, 6, 8));
    text.push('-');
    push_hex(&mut text, vstd::slice::slice_subrange(all, 8, 10));
    text.push('-');
    push_hex(&mut text, vstd::slice::slice_subrange(all, 10, 16));
    assert(text@ =~= hyphenated(value));
    text
}

/// Identifies a device by its public key.
#[derive(Clone, Copy, Debug, PartialEq, Eq, PartialOrd, Ord, Hash, Structural)]
pub struct DeviceId {
    pub value: u128,
}

impl DeviceId {
    /// A fresh random identifier, never the nil one.
    pub fn new() -> (id: Self)
        ensures
            is_random_uuid(id.value),
            id.value != 0,
    {
        DeviceId { value: random_uuid() }
    }

    /// The identifier with the given value.
    pub fn from_u128(value: u128) -> (id: Self)
        ensures
            id.value == value,
    {
        DeviceId { value }
    }

    /// The value of the identifier.
    pub fn as_u128(&self) -> (value: u128)
        ensures
            value == self.value,
    {
        self.value
    }

    /// The sixteen bytes of the identifier.
    pub open spec fn spec_bytes(self) -> Seq<u8> {
        uuid_bytes(self.value)
    }

    /// The identifier that sixteen bytes spell.
    pub fn from_bytes(bytes: &[u8]) -> (id: Self)
        requires
            bytes@.len() == 16,
        ensures
            id.value == uuid_of_bytes(bytes@),
            id.spec_bytes() == bytes@,
    {
        proof {
            lemma_uuid_of_bytes(bytes@);
        }
        DeviceId { value: be_decode(bytes) }
    }

    /// The sixteen bytes of the identifier.
    pub fn to_bytes(&self) -> (bytes: [u8; 16])
        ensures
            bytes@ == self.spec_bytes(),
    {
        uuid_to_array(self.value)
    }

    /// Reads an identifier from text.
    pub fn parse(text: &str) -> (result: Result<Self, String>)
        ensures
            match result {
                Ok(id) => parsed_uuid(text@) == Ok::<u128, Seq<char>>(id.value),
                Err(message) => parsed_uuid(text@) == Err::<u128, Seq<char>>(message@),
            },
    {
        match parse_uuid_text(text) {
            Ok(value) => Ok(DeviceId { value }),
            Err(message) => Err(message),
        }
    }

    /// The hyphenated lowercase text of the identifier.
    pub fn to_string(&self) -> (text: String)
        ensures
            text@ == hyphenated(self.value),
    {
        uuid_to_text(self.value)
    }
}

impl Default for DeviceId {
    fn default() -> (id: Self)
        ensures
            is_random_uuid(id.value),
    {
        Self::new()
    }
}

/// Identifies a file through all its revisions.
#[derive(Clone, Copy, Debug, PartialEq, Eq, PartialOrd, Ord, Hash, Structural)]
pub struct FileId {
    pub value: u128,
}

impl FileId {
    /// A fresh random identifier, never the nil one.
    pub fn new() -> (id: Self)
        ensures
            is_random_uuid(id.value),
            id.value != 0,
    {
        FileId { value: random_uuid() }
    }

    /// The identifier with the given value.
    pub fn from_u128(value: u128) -> (id: Self)
        ensures
            id.value == value,
    {
        FileId { value }
    }

    /// The value of the identifier.
    pub fn as_u128(&self) -> (value: u128)
        ensures
            value == self.value,
    {
        self.value
    }

    /// The sixteen bytes of the identifier.
    pub open spec fn spec_bytes(self) -> Seq<u8> {
        uuid_bytes(self.value)
    }

    /// The identifier that sixteen bytes spell.
    pub fn from_bytes(bytes: &[u8]) -> (id: Self)
        requires
            bytes@.len() == 16,
        ensures
            id.value == uuid_of_bytes(bytes@),
            id.spec_bytes() == bytes@,
    {
        proof {
            lemma_uuid_of_bytes(bytes@);
        }
        FileId { value: be_decode(bytes) }
    }

    /// The sixteen bytes of the identifier.
    pub fn to_bytes(&self) -> (bytes: [u8; 16])
        ensures
            bytes@ == self.spec_bytes(),
    {
        uuid_to_array(self.value)
    }

    /// Reads an identifier from text.
    pub fn parse(text: &str) -> (result: Result<Self, String>)
        ensures
            match result {
                Ok(id) => parsed_uuid(text@) == Ok::<u128, Seq<char>>(id.value),
                Err(message) => parsed_uuid(text@) == Err::<u128, Seq<char>>(message@),
            },
    {
        match parse_uuid_text(text) {
            Ok(value) => Ok(FileId { value }),
            Err(message) => Err(message),
        }
    }

    /// The hyphenated lowercase text of the identifier.
    pub fn to_string(&self) -> (text: String)
        ensures
            text@ == hyphenated(self.value),
    {
        uuid_to_text(self.value)
    }
}

impl Default for FileId {
    fn default() -> (id: Self)
        ensures
            is_random_uuid(id.value),
    {
        Self::new()
    }
}

/// Identifies a workspace.
#[derive(Clone, Copy, Debug, PartialEq, Eq, PartialOrd, Ord, Hash, Structural)]
pub struct GroupId {
    pub value: u128,
}

impl GroupId {
    /// A fresh random identifier, never the nil one.
    pub fn new() -> (id: Self)
        ensures
            is_random_uuid(id.value),
            id.value != 0,
    {
        GroupId { value: random_uuid() }
    }

    /// The identifier with the given value.
    pub fn from_u128(value: u128) -> (id: Self)
        ensures
            id.value == value,
    {
        GroupId { value }
    }

    /// The value of the identifier.
    pub fn as_u128(&self) -> (value: u128)
        ensures
            value == self.value,
    {
        self.value
    }

    /// The sixteen bytes of the identifier.
    pub open spec fn spec_bytes(self) -> Seq<u8> {
        uuid_bytes(self.value)
    }

    /// The identifier that sixteen bytes spell.
    pub fn from_bytes(bytes: &[u8]) -> (id: Self)
        requires
            bytes@.len() == 16,
        ensures
            id.value == uuid_of_bytes(bytes@),
            id.spec_bytes() == bytes@,
    {
        proof {
            lemma_uuid_of_bytes(bytes@);
        }
        GroupId { value: be_decode(bytes) }
    }

    /// The sixteen bytes of the identifier.
    pub fn to_bytes(&self) -> (bytes: [u8; 16])
        ensures
            bytes@ == self.spec_bytes(),
    {
        uuid_to_array(self.value)
    }

    /// Reads an identifier from text.
    pub fn parse(text: &str) -> (result: Result<Self, String>)
        ensures
            match result {
                Ok(id) => parsed_uuid(text@) == Ok::<u128, Seq<char>>(id.value),
                Err(message) => parsed_uuid(text@) == Err::<u128, Seq<char>>(message@),
            },
    {
        match parse_uuid_text(text) {
            Ok(value) => Ok(GroupId { value }),
            Err(message) => Err(message),
        }
    }

    /// The hyphenated lowercase text of the identifier.
    pub fn to_string(&self) -> (text: String)
        ensures
            text@ == hyphenated(self.value),
    {
        uuid_to_text(self.value)
    }
}

impl Default for GroupId {
    fn default() -> (id: Self)
        ensures
            is_random_uuid(id.value),
    {
        Self::new()
    }
}

/// Identifies one revision of a file.
#[derive(Clone, Copy, Debug, PartialEq, Eq, PartialOrd, Ord, Hash, Structural)]
pub struct RevisionId {
    pub value: u128,
}

impl RevisionId {
    /// A fresh random identifier, never the nil one.
    pub fn new() -> (id: Self)
        ensures
            is_random_uuid(id.value),
            id.value != 0,
    {
        RevisionId { value: random_uuid() }
    }

    /// The identifier with the given value.
    pub fn from_u128(value: u128) -> (id: Self)
        ensures
            id.value == value,
    {
        RevisionId { value }
    }

    /// The value of the identifier.
    pub fn as_u128(&self) -> (value: u128)
        ensures
            value == self.value,
    {
        self.value
    }

    /// The sixteen bytes of the identifier.
    pub open spec fn spec_bytes(self) -> Seq<u8> {
        uuid_bytes(self.value)
    }

    /// The identifier that sixteen bytes spell.
    pub fn from_bytes(bytes: &[u8]) -> (id: Self)
        requires
            bytes@.len() == 16,
        ensures
            id.value == uuid_of_bytes(bytes@),
            id.spec_bytes() == bytes@,
    {
        proof {
            lemma_uuid_of_bytes(bytes@);
        }
        RevisionId { value: be_decode(bytes) }
    }

    /// The sixteen bytes of the identifier.
    pub fn to_bytes(&self) -> (bytes: [u8; 16])
        ensures
            bytes@ == self.spec_bytes(),
    {
        uuid_to_array(self.value)
    }

    /// Reads an identifier from text.
    pub fn parse(text: &str) -> (result: Result<Self, String>)
        ensures
            match result {
                Ok(id) => parsed_uuid(text@) == Ok::<u128, Seq<char>>(id.value),
                Err(message) => parsed_uuid(text@) == Err::<u128, Seq<char>>(message@),
            },
    {
        match parse_uuid_text(text) {
            Ok(value) => Ok(RevisionId { value }),
            Err(message) => Err(message),
        }
    }

    /// The hyphenated lowercase text of the identifier.
    pub fn to_string(&self) -> (text: String)
        ensures
            text@ == hyphenated(self.value),
    {
        uuid_to_text(self.value)
    }
}

impl Default for RevisionId {
    fn default() -> (id: Self)
        ensures
            is_random_uuid(id.value),
    {
        Self::new()
    }
}

/// Thirty-two bytes as an array.
pub fn array_of(bytes: &[u8]) -> (array: [u8; 32])
    requires
        bytes@.len() == 32,
    ensures
        array@ == bytes@,
{
    let mut array: [u8; 32] = [0u8; 32];
    let mut index: usize = 0;
    while index < 32
        invariant
            index <= 32,
            bytes@.len() == 32,
            forall|i: int| 0 <= i < index ==> array@[i] == bytes@[i],
        decreases 32 - index,
    {
        array[index] = bytes[index];
        index += 1;
    }
    assert(array@ =~= bytes@);
    array
}

/// Identifies an object by its content.
#[derive(Clone, Copy, Debug, PartialEq, Eq, PartialOrd, Ord, Hash, Structural)]
pub struct ContentId {
    pub high: u128,
    pub low: u128,
}

impl View for ContentId {
    type V = Seq<u8>;

    /// The thirty-two bytes of the digest.
    open spec fn view(&self) -> Seq<u8> {
        uuid_bytes(self.high) + uuid_bytes(self.low)
    }
}

impl ContentId {
    /// The digest with the given thirty-two bytes.
    pub open spec fn of_bytes(bytes: Seq<u8>) -> ContentId {
        ContentId {
            high: uuid_of_bytes(bytes.subrange(0, 16)),
            low: uuid_of_bytes(bytes.subrange(16, 32)),
        }
    }

    /// A digest is the one with its bytes.
    pub proof fn lemma_view(self)
        ensures
            self@.len() == 32,
            ContentId::of_bytes(self@) == self,
    {
        lemma_uuid_bytes(self.high);
        lemma_uuid_bytes(self.low);
        assert(self@.subrange(0, 16) =~= uuid_bytes(self.high));
        assert(self@.subrange(16, 32) =~= uuid_bytes(self.low));
    }

    /// Any thirty-two bytes are the bytes of a digest.
    pub proof fn lemma_of_bytes(bytes: Seq<u8>)
        requires
            bytes.len() == 32,
        ensures
            ContentId::of_bytes(bytes)@ == bytes,
    {
        lemma_uuid_of_bytes(bytes.subrange(0, 16));
        lemma_uuid_of_bytes(bytes.subrange(16, 32));
        assert(ContentId::of_bytes(bytes)@ =~= bytes);
    }

    /// The digest with the given bytes.
    pub fn from_bytes(bytes: [u8; 32]) -> (id: Self)
        ensures
            id == ContentId::of_bytes(bytes@),
            id@ == bytes@,
    {
        proof {
            ContentId::lemma_of_bytes(bytes@);
            lemma_uuid_of_bytes(bytes@.subrange(0, 16));
            lemma_uuid_of_bytes(bytes@.subrange(16, 32));
        }
        ContentId {
            high: be_decode(vstd::slice::slice_subrange(bytes.as_slice(), 0, 16)),
            low: be_decode(vstd::slice::slice_subrange(bytes.as_slice(), 16, 32)),
        }
    }

    /// The bytes of the digest.
    pub fn as_bytes(&self) -> (bytes: [u8; 32])
        ensures
            bytes@ == self@,
    {
        let mut encoded: Vec<u8> = be_encode(self.high, 16);
        append_bytes(&mut encoded, be_encode(self.low, 16).as_slice());
        proof {
            self.lemma_view();
        }
        array_of(encoded.as_slice())
    }

    /// The bytes of the digest.
    pub fn into_bytes(self) -> (bytes: [u8; 32])
        ensures
            bytes@ == self@,
    {
        self.as_bytes()
    }

    /// `self` comes before `other` in the order of the digests' bytes.
    pub open spec fn before(self, other: Self) -> bool {
        self.high < other.high || (self.high == other.high && self.low < other.low)
    }

    /// Tests whether `self` comes before `other` in the order of the digests' bytes.
    pub fn is_before(&self, other: &Self) -> (before: bool)
        ensures
            before == self.before(*other),
    {
        self.high < other.high || (self.high == other.high && self.low < other.low)
    }

    /// The digest that thirty-two bytes spell, or nothing for any other number of bytes.
    pub fn from_slice(bytes: &[u8]) -> (id: Option<Self>)
        ensures
            id == if bytes@.len() == 32 {
                Some(ContentId::of_bytes(bytes@))
            } else {
                None
            },
            id is Some ==> id->0@ == bytes@,
    {
        if bytes.len() != 32 {
            return None;
        }
        Some(ContentId::from_bytes(array_of(bytes)))
    }
}

/// Identifies a path without revealing it.
#[derive(Clone, Copy, Debug, PartialEq, Eq, PartialOrd, Ord, Hash, Structural)]
pub struct PathId {
    pub high: u128,
    pub low: u128,
}

impl View for PathId {
    type V = Seq<u8>;

    /// The thirty-two bytes of the digest.
    open spec fn view(&self) -> Seq<u8> {
        uuid_bytes(self.high) + uuid_bytes(self.low)
    }
}

impl PathId {
    /// The digest with the given thirty-two bytes.
    pub open spec fn of_bytes(bytes: Seq<u8>) -> PathId {
        PathId {
            high: uuid_of_bytes(bytes.subrange(0, 16)),
            low: uuid_of_bytes(bytes.subrange(16, 32)),
        }
    }

    /// A digest is the one with its bytes.
    pub proof fn lemma_view(self)
        ensures
            self@.len() == 32,
            PathId::of_bytes(self@) == self,
    {
        lemma_uuid_bytes(self.high);
        lemma_uuid_bytes(self.low);
        assert(self@.subrange(0, 16) =~= uuid_bytes(self.high));
        assert(self@.subrange(16, 32) =~= uuid_bytes(self.low));
    }

    /// Any thirty-two bytes are the bytes of a digest.
    pub proof fn lemma_of_bytes(bytes: Seq<u8>)
        requires
            bytes.len() == 32,
        ensures
            PathId::of_bytes(bytes)@ == bytes,
    {
        lemma_uuid_of_bytes(bytes.subrange(0, 16));
        lemma_uuid_of_bytes(bytes.subrange(16, 32));
        assert(PathId::of_bytes(bytes)@ =~= bytes);
    }

    /// The digest with the given bytes.
    pub fn from_bytes(bytes: [u8; 32]) -> (id: Self)
        ensures
            id == PathId::of_bytes(bytes@),
            id@ == bytes@,
    {
        proof {
            PathId::lemma_of_bytes(bytes@);
            lemma_uuid_of_bytes(bytes@.subrange(0, 16));
            lemma_uuid_of_bytes(bytes@.subrange(16, 32));
        }
        PathId {
            high: be_decode(vstd::slice::slice_subrange(bytes.as_slice(), 0, 16)),
            low: be_decode(vstd::slice::slice_subrange(bytes.as_slice(), 16, 32)),
        }
    }

    /// The bytes of the digest.
    pub fn as_bytes(&self) -> (bytes: [u8; 32])
        ensures
            bytes@ == self@,
    {
        let mut encoded: Vec<u8> = be_encode(self.high, 16);
        append_bytes(&mut encoded, be_encode(self.low, 16).as_slice());
        proof {
            self.lemma_view();
        }
        array_of(encoded.as_slice())
    }

    /// The bytes of the digest.
    pub fn into_bytes(self) -> (bytes: [u8; 32])
        ensures
            bytes@ == self@,
    {
        self.as_bytes()
    }

    /// `self` comes before `other` in the order of the digests' bytes.
    pub open spec fn before(self, other: Self) -> bool {
        self.high < other.high || (self.high == other.high && self.low < other.low)
    }

    /// Tests whether `self` comes before `other` in the order of the digests' bytes.
    pub fn is_before(&self, other: &Self) -> (before: bool)
        ensures
            before == self.before(*other),
    {
        self.high < other.high || (self.high == other.high && self.low < other.low)
    }

    /// The digest that thirty-two bytes spell, or nothing for any other number of bytes.
    pub fn from_slice(bytes: &[u8]) -> (id: Option<Self>)
        ensures
            id == if bytes@.len() == 32 {
                Some(PathId::of_bytes(bytes@))
            } else {
                None
            },
            id is Some ==> id->0@ == bytes@,
    {
        if bytes.len() != 32 {
            return None;
        }
        Some(PathId::from_bytes(array_of(bytes)))
    }
}

} // verus!
