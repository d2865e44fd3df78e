//! Message identifiers and message types.

use vstd::prelude::*;
use vstd::std_specs::cmp::PartialEqSpecImpl;
use vstd::std_specs::convert::FromSpecImpl;
use vstd::string::StringSliceAdditionalSpecFns;
use vstd::utf8::valid_utf8;

verus! {

/// `std::str::Utf8Error`, of which nothing is read here: it is handed on as
/// it comes.
#[verifier::external_type_specification]
#[verifier::external_body]
pub struct ExUtf8Error(std::str::Utf8Error);

/// `std::str::from_utf8` accepts exactly the byte strings that are valid
/// UTF-8, and the text it returns has the bytes it was given.
pub assume_specification<'a>[ std::str::from_utf8 ](v: &'a [u8]) -> (r: Result<
    &'a str,
    std::str::Utf8Error,
>)
    ensures
        r is Ok <==> valid_utf8(v@),
        r matches Ok(s) ==> s.spec_bytes() == v@,
;

/// Whether `id` can name a message: 1 to 15 bytes, and not the single byte
/// 0, which is kept for the frame delimiter.
pub open spec fn is_valid_id(id: Seq<u8>) -> bool {
    &&& 1 <= id.len() <= 15
    &&& !(id.len() == 1 && id[0] == 0)
}

/// The name of a message: a borrowed byte string that satisfies
/// [`is_valid_id`].
#[derive(Copy, Clone, Eq, PartialEq, Ord, PartialOrd, Hash, Debug)]
pub struct MessageId<'a>(&'a [u8]);

impl<'a> View for MessageId<'a> {
    type V = Seq<u8>;

    closed spec fn view(&self) -> Seq<u8> {
        self.0@
    }
}

impl<'a> MessageId<'a> {
    /// Maximum size in bytes.
    pub const MAX_SIZE: usize = 15;

    #[verifier::type_invariant]
    closed spec fn valid(&self) -> bool {
        is_valid_id(self.0@)
    }

    /// The library version, `"o"`.
    pub fn internal_lib_ver() -> (m: MessageId<'static>)
        ensures
            m@ == seq![0x6Fu8],
    {
        MessageId(&[0x6F])
    }

    /// The board identifier, `"i"`.
    pub fn internal_board_id() -> (m: MessageId<'static>)
        ensures
            m@ == seq![0x69u8],
    {
        MessageId(&[0x69])
    }

    /// The heartbeat, `"h"`.
    pub fn internal_heartbeat() -> (m: MessageId<'static>)
        ensures
            m@ == seq![0x68u8],
    {
        MessageId(&[0x68])
    }

    /// The request to announce the writable identifiers, `"t"`.
    pub fn internal_am() -> (m: MessageId<'static>)
        ensures
            m@ == seq![0x74u8],
    {
        MessageId(&[0x74])
    }

    /// A list of writable identifiers, `"u"`.
    pub fn internal_am_list() -> (m: MessageId<'static>)
        ensures
            m@ == seq![0x75u8],
    {
        MessageId(&[0x75])
    }

    /// The end of the writable identifiers, `"v"`.
    pub fn internal_am_end() -> (m: MessageId<'static>)
        ensures
            m@ == seq![0x76u8],
    {
        MessageId(&[0x76])
    }

    /// The request to send the writable variables, `"w"`.
    pub fn internal_av() -> (m: MessageId<'static>)
        ensures
            m@ == seq![0x77u8],
    {
        MessageId(&[0x77])
    }

    /// The name of the board, `"name"`.
    pub fn board_name() -> (m: MessageId<'static>)
        ensures
            m@ == seq![0x6Eu8, 0x61u8, 0x6Du8, 0x65u8],
    {
        MessageId(&[0x6E, 0x61, 0x6D, 0x65])
    }

    /// Returns the identifier that `id` spells, if it spells one.
    pub fn new(id: &'a [u8]) -> (r: Option<Self>)
        ensures
            r is Some <==> is_valid_id(id@),
            r matches Some(m) ==> m@ == id@,
    {
        if id.len() == 0 || id.len() > Self::MAX_SIZE || (id.len() == 1 && id[0] == 0) {
            None
        } else {
            Some(MessageId(id))
        }
    }

    /// Wraps `id` without looking at it. The caller answers for its validity.
    pub fn new_unchecked(id: &'a [u8]) -> (m: Self)
        requires
            is_valid_id(id@),
        ensures
            m@ == id@,
    {
        MessageId(id)
    }

    /// Returns the bytes of the identifier.
    pub fn as_bytes(&self) -> (bytes: &[u8])
        ensures
            bytes@ == self@,
            is_valid_id(bytes@),
    {
        proof {
            use_type_invariant(self);
        }
        self.0
    }

    /// Reads the identifier as text. This is for display: identifiers are
    /// compared by their bytes.
    pub fn as_str(&self) -> (r: Result<&str, std::str::Utf8Error>)
        ensures
            r is Ok <==> valid_utf8(self@),
            r matches Ok(s) ==> s.spec_bytes() == self@,
    {
        std::str::from_utf8(self.0)
    }

    /// Returns the identifier spelled by the bytes of `s`.
    pub fn from_utf8(s: &'a str) -> (m: Self)
        requires
            is_valid_id(s.spec_bytes()),
        ensures
            m@ == s.spec_bytes(),
    {
        MessageId(s.as_bytes())
    }

    /// Returns the number of bytes of the identifier.
    pub fn len(&self) -> (n: usize)
        ensures
            n == self@.len(),
            1 <= n <= 15,
    {
        proof {
            use_type_invariant(self);
        }
        self.0.len()
    }
}

impl<'a> From<MessageId<'a>> for &'a [u8] {
    fn from(id: MessageId<'a>) -> (bytes: Self) {
        id.0
    }
}

impl<'a> FromSpecImpl<MessageId<'a>> for &'a [u8] {
    open spec fn obeys_from_spec() -> bool {
        true
    }

    closed spec fn from_spec(id: MessageId<'a>) -> Self {
        id.0
    }
}

/// The bytes that an identifier is turned into are the bytes of the
/// identifier.
pub proof fn lemma_from_is_bytes(id: MessageId)
    ensures
        <&[u8] as vstd::std_specs::convert::FromSpec<MessageId>>::from_spec(id)@ == id@,
{
}

/// Whether two byte strings are the same.
fn same_bytes(a: &[u8], b: &[u8]) -> (same: bool)
    ensures
        same == (a@ == b@),
{
    if a.len() != b.len() {
        return false;
    }
    let mut i: usize = 0;
    while i < a.len()
        invariant
            i <= a.len(),
            a.len() == b.len(),
            forall|k: int| 0 <= k < i ==> a@[k] == b@[k],
        decreases a.len() - i,
    {
        if a[i] != b[i] {
            return false;
        }
        i = i + 1;
    }
    assert(a@ =~= b@);
    true
}

impl<'a> PartialEq<[u8]> for MessageId<'a> {
    fn eq(&self, other: &[u8]) -> (same: bool) {
        same_bytes(self.0, other)
    }
}

impl<'a> PartialEqSpecImpl<[u8]> for MessageId<'a> {
    open spec fn obeys_eq_spec() -> bool {
        true
    }

    open spec fn eq_spec(&self, other: &[u8]) -> bool {
        self@ == other@
    }
}

impl<'a, const N: usize> PartialEq<&[u8; N]> for MessageId<'a> {
    fn eq(&self, other: &&[u8; N]) -> (same: bool) {
        same_bytes(self.0, other.as_slice())
    }
}

impl<'a, const N: usize> PartialEqSpecImpl<&[u8; N]> for MessageId<'a> {
    open spec fn obeys_eq_spec() -> bool {
        true
    }

    open spec fn eq_spec(&self, other: &&[u8; N]) -> bool {
        self@ == other@
    }
}

impl<'a> PartialEq<MessageId<'a>> for [u8] {
    fn eq(&self, other: &MessageId) -> (same: bool) {
        same_bytes(self, other.0)
    }
}

impl<'a> PartialEqSpecImpl<MessageId<'a>> for [u8] {
    open spec fn obeys_eq_spec() -> bool {
        true
    }

    open spec fn eq_spec(&self, other: &MessageId) -> bool {
        self@ == other@
    }
}

impl<'a, const N: usize> PartialEq<MessageId<'a>> for &[u8; N] {
    fn eq(&self, other: &MessageId) -> (same: bool) {
        same_bytes(self.as_slice(), other.0)
    }
}

impl<'a, const N: usize> PartialEqSpecImpl<MessageId<'a>> for &[u8; N] {
    open spec fn obeys_eq_spec() -> bool {
        true
    }

    open spec fn eq_spec(&self, other: &MessageId) -> bool {
        self@ == other@
    }
}

/// The kind of data a packet carries, as named by its 4-bit wire code.
///
/// Codes 0 to 12 are defined; any other code is kept as `Unknown(code)`.
#[derive(Copy, Clone, Eq, PartialEq, Ord, PartialOrd, Hash, Debug, Structural)]
pub enum MessageType {
    Callback,
    Custom,
    OffsetMetadata,
    Byte,
    Char,
    I8,
    U8,
    I16,
    U16,
    I32,
    U32,
    F32,
    F64,
    Unknown(u8),
}

impl MessageType {
    /// The wire code of a message type. `Unknown` carries its code along.
    pub open spec fn code(self) -> u8 {
        match self {
            MessageType::Callback => 0,
            MessageType::Custom => 1,
            MessageType::OffsetMetadata => 2,
            MessageType::Byte => 3,
            MessageType::Char => 4,
            MessageType::I8 => 5,
            MessageType::U8 => 6,
            MessageType::I16 => 7,
            MessageType::U16 => 8,
            MessageType::I32 => 9,
            MessageType::U32 => 10,
            MessageType::F32 => 11,
            MessageType::F64 => 12,
            MessageType::Unknown(code) => code,
        }
    }

    /// The message type that a wire code names.
    pub open spec fn of_code(code: u8) -> MessageType {
        if code == 0 {
            MessageType::Callback
        } else if code == 1 {
            MessageType::Custom
        } else if code == 2 {
            MessageType::OffsetMetadata
        } else if code == 3 {
            MessageType::Byte
        } else if code == 4 {
            MessageType::Char
        } else if code == 5 {
            MessageType::I8
        } else if code == 6 {
            MessageType::U8
        } else if code == 7 {
            MessageType::I16
        } else if code == 8 {
            MessageType::U16
        } else if code == 9 {
            MessageType::I32
        } else if code == 10 {
            MessageType::U32
        } else if code == 11 {
            MessageType::F32
        } else if code == 12 {
            MessageType::F64
        } else {
            MessageType::Unknown(code)
        }
    }

    /// A defined type is any variant but `Unknown`.
    pub open spec fn is_defined(self) -> bool {
        !(self is Unknown)
    }

    /// The number of bytes one element of this type takes on the wire;
    /// 0 for the kinds that carry no typed data.
    pub open spec fn element_size(self) -> nat {
        match self {
            MessageType::Callback | MessageType::Custom | MessageType::OffsetMetadata
            | MessageType::Unknown(_) => 0,
            MessageType::Byte | MessageType::Char | MessageType::I8 | MessageType::U8 => 1,
            MessageType::I16 | MessageType::U16 => 2,
            MessageType::I32 | MessageType::U32 | MessageType::F32 => 4,
            MessageType::F64 => 8,
        }
    }

    /// Returns the wire size of one element of this type.
    pub fn wire_size_hint(self) -> (size: usize)
        ensures
            size == self.element_size(),
    {
        match self {
            MessageType::Callback | MessageType::Custom | MessageType::Unknown(_) => 0,
            MessageType::OffsetMetadata => 0,
            MessageType::Byte | MessageType::Char | MessageType::I8 | MessageType::U8 => 1,
            MessageType::I16 | MessageType::U16 => 2,
            MessageType::I32 | MessageType::U32 => 4,
            MessageType::F32 => 4,
            MessageType::F64 => 8,
        }
    }

    /// Returns the wire size of an array of `num_elements` elements of this type.
    pub fn array_wire_size_hint(self, num_elements: usize) -> (size: usize)
        requires
            num_elements * self.element_size() <= usize::MAX,
        ensures
            size == num_elements * self.element_size(),
    {
        num_elements * self.wire_size_hint()
    }

    /// Returns the number of whole elements of this type that fit in
    /// `data_size` bytes; 0 for the kinds that carry no typed data.
    pub fn array_wire_length_hint(self, data_size: usize) -> (count: usize)
        ensures
            self.element_size() == 0 ==> count == 0,
            self.element_size() > 0 ==> count == data_size as nat / self.element_size(),
    {
        let wire_size = self.wire_size_hint();
        if wire_size == 0 {
            0
        } else {
            data_size / wire_size
        }
    }
}

impl From<u8> for MessageType {
    fn from(value: u8) -> (typ: Self) {
        match value {
            0 => MessageType::Callback,
            1 => MessageType::Custom,
            2 => MessageType::OffsetMetadata,
            3 => MessageType::Byte,
            4 => MessageType::Char,
            5 => MessageType::I8,
            6 => MessageType::U8,
            7 => MessageType::I16,
            8 => MessageType::U16,
            9 => MessageType::I32,
            10 => MessageType::U32,
            11 => MessageType::F32,
            12 => MessageType::F64,
            _ => MessageType::Unknown(value),
        }
    }
}

impl FromSpecImpl<u8> for MessageType {
    open spec fn obeys_from_spec() -> bool {
        true
    }

    open spec fn from_spec(value: u8) -> Self {
        MessageType::of_code(value)
    }
}

impl From<MessageType> for u8 {
    fn from(value: MessageType) -> (code: Self) {
        match value {
            MessageType::Callback => 0,
            MessageType::Custom => 1,
            MessageType::OffsetMetadata => 2,
            MessageType::Byte => 3,
            MessageType::Char => 4,
            MessageType::I8 => 5,
            MessageType::U8 => 6,
            MessageType::I16 => 7,
            MessageType::U16 => 8,
            MessageType::I32 => 9,
            MessageType::U32 => 10,
            MessageType::F32 => 11,
            MessageType::F64 => 12,
            MessageType::Unknown(typ) => typ,
        }
    }
}

impl FromSpecImpl<MessageType> for u8 {
    open spec fn obeys_from_spec() -> bool {
        true
    }

    open spec fn from_spec(value: MessageType) -> Self {
        value.code()
    }
}

/// Every defined message type is the type that its own wire code names.
pub proof fn lemma_type_code_round_trip(typ: MessageType)
    requires
        typ.is_defined(),
    ensures
        typ.code() <= 12,
        MessageType::of_code(typ.code()) == typ,
{
}

/// A code outside the defined range names `Unknown` of that code, and every
/// code, defined or not, is the code of the type it names.
pub proof fn lemma_code_type_round_trip(code: u8)
    ensures
        code > 12 ==> MessageType::of_code(code) == MessageType::Unknown(code),
        code <= 12 ==> MessageType::of_code(code).is_defined(),
        MessageType::of_code(code).code() == code,
{
}

} // verus!
