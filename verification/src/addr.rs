//! Nym addresses and their conversions.

use std::str::FromStr;

use vstd::prelude::*;

use crate::custom_addr::{CustomAddr, CustomAddrView};
use crate::hex::{hex_text, to_hex};
use crate::recipient::{recipient_accepts, recipient_in_text, recipient_text, Recipient};

verus! {

/// Transport ID for the Nym user transport.
/// 0x4E594D = "NYM" in ASCII.
pub const NYM_TRANSPORT_ID: u64 = 0x4E594D;

/// Size of a Nym address in bytes.
pub const NYM_ADDR_SIZE: usize = 96;

/// The custom address that carries these bytes as a Nym address.
pub open spec fn custom_addr_of(bytes: Seq<u8>) -> CustomAddrView {
    CustomAddrView { id: NYM_TRANSPORT_ID, data: bytes }
}

/// The custom address has the id of the Nym transport and the size of a Nym address.
pub open spec fn is_nym(addr: CustomAddrView) -> bool {
    addr.id == NYM_TRANSPORT_ID && addr.data.len() == NYM_ADDR_SIZE
}

/// The bytes of the Nym address that a custom address carries, if it is one.
pub open spec fn nym_bytes(addr: CustomAddrView) -> Option<Seq<u8>> {
    if is_nym(addr) {
        Some(addr.data)
    } else {
        None
    }
}

/// The recipient with these bytes, if the mixnet accepts them.
pub open spec fn recipient_of(bytes: Seq<u8>) -> Option<Seq<u8>> {
    if recipient_accepts(bytes) {
        Some(bytes)
    } else {
        None
    }
}

/// The recipient that a custom address names, if it names one.
pub open spec fn recipient_at(addr: CustomAddrView) -> Option<Seq<u8>> {
    match nym_bytes(addr) {
        Some(bytes) => recipient_of(bytes),
        None => None,
    }
}

/// How a Nym address is shown: as `text` where there is a recipient, else in hex.
pub open spec fn shown(bytes: Seq<u8>, text: Option<Seq<char>>) -> Seq<char> {
    match text {
        Some(text) => text,
        None => hex_text(bytes),
    }
}

/// Converts a recipient to a custom address.
pub fn to_custom_addr(recipient: &Recipient) -> (r: CustomAddr)
    ensures
        r@ == custom_addr_of(recipient@),
        r@.id == NYM_TRANSPORT_ID,
        r@.data == recipient@,
        recipient_at(r@) == Some(recipient@),
{
    CustomAddr::from_parts(NYM_TRANSPORT_ID, &recipient.to_bytes())
}

/// Converts a custom address back to a recipient.
pub fn from_custom_addr(addr: &CustomAddr) -> (r: Option<Recipient>)
    ensures
        match r {
            Some(recipient) => recipient_at(addr@) == Some(recipient@),
            None => recipient_at(addr@) is None,
        },
        r is Some <==> addr@.id == NYM_TRANSPORT_ID && addr@.data.len() == NYM_ADDR_SIZE
            && recipient_accepts(addr@.data),
        r matches Some(recipient) ==> recipient@ == addr@.data,
{
    if addr.id() != NYM_TRANSPORT_ID {
        return None;
    }
    match array_from(addr.data()) {
        Some(bytes) => Recipient::try_from_bytes(bytes),
        None => None,
    }
}

/// Checks if a custom address is a valid Nym address.
pub fn is_nym_addr(addr: &CustomAddr) -> (r: bool)
    ensures
        r == is_nym(addr@),
        r <==> addr@.id == NYM_TRANSPORT_ID && addr@.data.len() == NYM_ADDR_SIZE,
{
    addr.id() == NYM_TRANSPORT_ID && addr.data().len() == NYM_ADDR_SIZE
}

/// The bytes as an array, if there are as many as a Nym address has.
pub fn array_from(bytes: &[u8]) -> (r: Option<[u8; NYM_ADDR_SIZE]>)
    ensures
        match r {
            Some(array) => array@ == bytes@,
            None => bytes@.len() != NYM_ADDR_SIZE,
        },
{
    if bytes.len() != NYM_ADDR_SIZE {
        return None;
    }
    let mut array: [u8; NYM_ADDR_SIZE] = [0u8; NYM_ADDR_SIZE];
    let mut i: usize = 0;
    while i < NYM_ADDR_SIZE
        invariant
            i <= NYM_ADDR_SIZE,
            bytes@.len() == NYM_ADDR_SIZE,
            forall|j: int| 0 <= j < i ==> array@[j] == bytes@[j],
        decreases NYM_ADDR_SIZE - i,
    {
        array[i] = bytes[i];
        i += 1;
    }
    assert(array@ =~= bytes@);
    Some(array)
}

/// A Nym address for use with custom transports.
///
/// This is a 96-byte address containing:
/// - Client identity key (32 bytes, Ed25519)
/// - Client encryption key (32 bytes, X25519)
/// - Gateway identity key (32 bytes, Ed25519)
///
/// Any 96 bytes are an address; those that the mixnet accepts as keys are also a
/// [`Recipient`].
#[derive(Debug, Clone, Copy, PartialEq, Eq, Hash)]
pub struct NymAddr(pub [u8; NYM_ADDR_SIZE]);

impl View for NymAddr {
    type V = Seq<u8>;

    open spec fn view(&self) -> Seq<u8> {
        self.0@
    }
}

impl NymAddr {
    /// Creates an address from raw bytes.
    pub fn from_bytes(bytes: [u8; NYM_ADDR_SIZE]) -> (r: Self)
        ensures
            r == NymAddr(bytes),
    {
        NymAddr(bytes)
    }

    /// The raw bytes.
    pub fn as_bytes(&self) -> (r: &[u8; NYM_ADDR_SIZE])
        ensures
            *r == self.0,
    {
        &self.0
    }

    /// Converts to a recipient, if the mixnet accepts the bytes.
    pub fn to_recipient(&self) -> (r: Option<Recipient>)
        ensures
            match r {
                Some(recipient) => recipient_of(self@) == Some(recipient@),
                None => recipient_of(self@) is None,
            },
            r is Some <==> recipient_accepts(self.0@),
            r matches Some(recipient) ==> recipient@ == self.0@,
    {
        Recipient::try_from_bytes(self.0)
    }

    /// Creates an address from a recipient.
    pub fn from_recipient(recipient: &Recipient) -> (r: Self)
        ensures
            r@ == recipient@,
            r.0@ == recipient@,
            recipient_of(r@) == Some(recipient@),
    {
        NymAddr(recipient.to_bytes())
    }

    /// Converts to a custom address.
    pub fn to_custom_addr(&self) -> (r: CustomAddr)
        ensures
            r@ == custom_addr_of(self@),
            r@.id == NYM_TRANSPORT_ID,
            r@.data == self.0@,
    {
        CustomAddr::from_parts(NYM_TRANSPORT_ID, &self.0)
    }

    /// Creates an address from a custom address, if it is one of this transport.
    pub fn from_custom_addr(addr: &CustomAddr) -> (r: Option<Self>)
        ensures
            match r {
                Some(nym) => nym_bytes(addr@) == Some(nym@),
                None => nym_bytes(addr@) is None,
            },
            r is Some <==> addr@.id == NYM_TRANSPORT_ID && addr@.data.len() == NYM_ADDR_SIZE,
            r matches Some(nym) ==> nym.0@ == addr@.data,
    {
        if addr.id() != NYM_TRANSPORT_ID || addr.data().len() != NYM_ADDR_SIZE {
            return None;
        }
        match array_from(addr.data()) {
            Some(bytes) => Some(NymAddr(bytes)),
            None => None,
        }
    }

    /// The address as text: as the recipient is written, or in lower-case hex where
    /// the bytes are no recipient. The text of a recipient can be read back; the hex has
    /// no `@`, and no address is read from it.
    pub fn to_string(&self) -> (r: String)
        ensures
            recipient_accepts(self@) ==> r@ == shown(self@, Some(recipient_text(self@))),
            recipient_accepts(self.0@) ==> r@ == recipient_text(self.0@),
            !recipient_accepts(self@) ==> r@ == shown(self@, None),
            recipient_accepts(self@) ==> recipient_in_text(r@) == Some(self@),
            !recipient_accepts(self@) ==> !r@.contains('@'),
    {
        match self.to_recipient() {
            Some(recipient) => self.show(Some(recipient.to_string())),
            None => self.show(None),
        }
    }

    /// The address as text, given the text of its recipient where it has one.
    pub fn show(&self, text: Option<String>) -> (r: String)
        ensures
            r@ == shown(
                self@,
                match text {
                    Some(text) => Some(text@),
                    None => None,
                },
            ),
    {
        match text {
            Some(text) => text,
            None => to_hex(&self.0),
        }
    }

    /// Reads an address from the text of a recipient.
    pub fn parse(text: &str) -> (r: Result<Self, AddrParseError>)
        ensures
            match r {
                Ok(nym) => recipient_in_text(text@) == Some(nym@) && recipient_accepts(nym@),
                Err(e) => recipient_in_text(text@) is None && e == AddrParseError::InvalidFormat,
            },
            !text@.contains('@') ==> r is Err,
    {
        NymAddr::from_parsed(Recipient::parse(text))
    }

    /// The address of the recipient that a text was read as, if it was read as one.
    pub fn from_parsed(recipient: Option<Recipient>) -> (r: Result<Self, AddrParseError>)
        ensures
            match r {
                Ok(nym) => recipient is Some && nym@ == recipient->0@ && recipient_accepts(nym@),
                Err(e) => recipient is None && e == AddrParseError::InvalidFormat,
            },
    {
        match recipient {
            Some(recipient) => Ok(NymAddr::from_recipient(&recipient)),
            None => Err(AddrParseError::InvalidFormat),
        }
    }
}

impl FromStr for NymAddr {
    type Err = AddrParseError;

    fn from_str(s: &str) -> (r: Result<Self, AddrParseError>)
        ensures
            match r {
                Ok(nym) => recipient_in_text(s@) == Some(nym@) && recipient_accepts(nym@),
                Err(e) => recipient_in_text(s@) is None && e == AddrParseError::InvalidFormat,
            },
            !s@.contains('@') ==> r is Err,
    {
        NymAddr::parse(s)
    }
}

/// Error parsing a Nym address.
#[derive(Debug, Clone, Copy, PartialEq, Eq, Structural)]
pub enum AddrParseError {
    /// Invalid address format.
    InvalidFormat,
    /// Wrong transport ID (not a Nym address).
    WrongTransportId,
}

impl AddrParseError {
    /// What went wrong, in words.
    pub fn to_string(&self) -> (r: String)
        ensures
            r@ == match self {
                AddrParseError::InvalidFormat => "invalid Nym address format"@,
                AddrParseError::WrongTransportId => "wrong transport ID"@,
            },
    {
        match self {
            AddrParseError::InvalidFormat => "invalid Nym address format".to_owned(),
            AddrParseError::WrongTransportId => "wrong transport ID".to_owned(),
        }
    }
}

/// The view of an address is its bytes, one for one.
pub proof fn law_addr_shows_its_bytes(addr: NymAddr, i: int)
    requires
        0 <= i < NYM_ADDR_SIZE,
    ensures
        addr@.len() == NYM_ADDR_SIZE,
        addr@[i] == addr.0[i],
{
}

/// An address is its bytes: two addresses with the same bytes are equal.
pub proof fn law_addr_is_its_bytes(a: NymAddr, b: NymAddr)
    requires
        a@ == b@,
    ensures
        a == b,
{
    assert forall|i: int| 0 <= i < NYM_ADDR_SIZE implies a.0[i] == b.0[i] by {
        assert(a@[i] == b@[i]);
    }
    assert(a.0 =~= b.0);
}


/// A custom address carries the bytes of a Nym address as they are, byte for byte, under
/// the id of the Nym transport.
pub proof fn law_custom_addr_carries_the_bytes(bytes: Seq<u8>)
    ensures
        custom_addr_of(bytes).id == NYM_TRANSPORT_ID,
        custom_addr_of(bytes).data.len() == bytes.len(),
        forall|i: int| 0 <= i < bytes.len() ==> custom_addr_of(bytes).data[i] == bytes[i],
{
}

/// What is read from a custom address is exactly its data, and is read exactly where the
/// id is that of the Nym transport and there are as many bytes as an address has.
pub proof fn law_addr_is_read_from_the_data(addr: CustomAddrView)
    ensures
        nym_bytes(addr) is Some <==> addr.id == NYM_TRANSPORT_ID && addr.data.len()
            == NYM_ADDR_SIZE,
        is_nym(addr) <==> addr.id == NYM_TRANSPORT_ID && addr.data.len() == NYM_ADDR_SIZE,
        nym_bytes(addr) matches Some(bytes) ==> bytes.len() == addr.data.len() && forall|i: int|
            0 <= i < bytes.len() ==> bytes[i] == addr.data[i],
{
}

/// A recipient comes out of bytes exactly where the mixnet accepts them, and then it has
/// the bytes that went in: no other recipient takes the place of bytes that are none.
pub proof fn law_recipient_is_what_went_in(bytes: Seq<u8>)
    ensures
        recipient_of(bytes) is Some <==> recipient_accepts(bytes),
        recipient_of(bytes) matches Some(found) ==> found == bytes,
{
}

/// A custom address names a recipient exactly where it has the id of the Nym transport and
/// the mixnet accepts its data, of the size of an address; and then it names the one with
/// that data.
pub proof fn law_named_recipient_has_the_data(addr: CustomAddrView)
    ensures
        recipient_at(addr) is Some <==> addr.id == NYM_TRANSPORT_ID && addr.data.len()
            == NYM_ADDR_SIZE && recipient_accepts(addr.data),
        recipient_at(addr) matches Some(found) ==> found == addr.data,
{
}

/// An address with a recipient is shown as the text of that recipient, whatever its bytes.
/// Else it is shown in hex: two digits for each byte, of which the first counts sixteen.
pub proof fn law_shown_text(bytes: Seq<u8>, text: Seq<char>, i: int)
    requires
        0 <= i < bytes.len(),
    ensures
        shown(bytes, Some(text)) == text,
        ({
            let hex = shown(bytes, None);
            let high = hex[2 * i] as int;
            let low = hex[2 * i + 1] as int;
            &&& hex.len() == 2 * bytes.len()
            &&& '0' as int <= high <= '9' as int || 'a' as int <= high <= 'f' as int
            &&& '0' as int <= low <= '9' as int || 'a' as int <= low <= 'f' as int
            &&& bytes[i] as int == 16 * (if high <= '9' as int {
                high - '0' as int
            } else {
                high - 'a' as int + 10
            }) + (if low <= '9' as int {
                low - '0' as int
            } else {
                low - 'a' as int + 10
            })
        }),
{
    assert((2 * i) / 2 == i && (2 * i + 1) / 2 == i);
}

} // verus!
