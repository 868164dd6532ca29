//! Recipients of the Nym mixnet, as the bytes that stand for them.

use vstd::prelude::*;

use crate::addr::NYM_ADDR_SIZE;

verus! {

#[verifier::external_type_specification]
#[verifier::external_body]
pub struct ExRecipientFormattingError(
    nym_sphinx_addressing::clients::RecipientFormattingError,
);

/// `nym_sphinx_addressing::clients::Recipient::try_from_bytes` accepts these bytes.
pub uninterp spec fn recipient_accepts(bytes: Seq<u8>) -> bool;

/// The text that `nym_sphinx_addressing::clients::Recipient` has for the recipient
/// with these bytes.
pub uninterp spec fn recipient_text(bytes: Seq<u8>) -> Seq<char>;

/// The bytes of the recipient that `nym_sphinx_addressing::clients::Recipient::from_str`
/// reads from this text, where it reads one.
pub uninterp spec fn recipient_in_text(text: Seq<char>) -> Option<Seq<u8>>;

/// `Recipient::try_from_bytes`, then `Recipient::to_bytes`. The keys of a recipient
/// keep the bytes that they were made from, so what comes out is what went in.
#[verifier::external_body]
fn nym_try_from_bytes(bytes: [u8; NYM_ADDR_SIZE]) -> (r: Result<
    [u8; NYM_ADDR_SIZE],
    nym_sphinx_addressing::clients::RecipientFormattingError,
>)
    ensures
        r is Ok <==> recipient_accepts(bytes@),
        r is Ok ==> r->Ok_0@ == bytes@,
{
    let recipient = nym_sphinx_addressing::clients::Recipient::try_from_bytes(bytes)?;
    Ok(recipient.to_bytes())
}

/// The `Display` text of the recipient with these bytes. Its three keys are in base58,
/// which loses nothing, so `Recipient::from_str` reads the recipient back from it.
#[verifier::external_body]
fn nym_display(bytes: [u8; NYM_ADDR_SIZE]) -> (r: Result<
    String,
    nym_sphinx_addressing::clients::RecipientFormattingError,
>)
    ensures
        r is Ok <==> recipient_accepts(bytes@),
        r is Ok ==> r->Ok_0@ == recipient_text(bytes@),
        r is Ok ==> recipient_in_text(r->Ok_0@) == Some(bytes@),
{
    let recipient = nym_sphinx_addressing::clients::Recipient::try_from_bytes(bytes)?;
    Ok(recipient.to_string())
}

/// `Recipient::from_str`, then `Recipient::to_bytes`. A text without an `@` names no
/// recipient, and `try_from_bytes` accepts the bytes of every recipient.
#[verifier::external_body]
fn nym_from_str(text: &str) -> (r: Result<
    [u8; NYM_ADDR_SIZE],
    nym_sphinx_addressing::clients::RecipientFormattingError,
>)
    ensures
        r is Ok <==> recipient_in_text(text@) is Some,
        r is Ok ==> recipient_in_text(text@) == Some(r->Ok_0@),
        r is Ok ==> recipient_accepts(r->Ok_0@),
        r is Ok ==> text@.contains('@'),
{
    let recipient: nym_sphinx_addressing::clients::Recipient = text.parse()?;
    Ok(recipient.to_bytes())
}

/// A recipient of the mixnet: bytes that the mixnet accepts as the client's identity
/// key, the client's encryption key and the identity key of its gateway.
#[derive(Clone, Copy, Debug, PartialEq, Eq)]
pub struct Recipient {
    bytes: [u8; NYM_ADDR_SIZE],
}

impl View for Recipient {
    type V = Seq<u8>;

    closed spec fn view(&self) -> Seq<u8> {
        self.bytes@
    }
}

impl Recipient {
    #[verifier::type_invariant]
    spec fn accepted(self) -> bool {
        recipient_accepts(self.bytes@)
    }

    /// The recipient with these bytes, if the mixnet accepts them.
    pub fn try_from_bytes(bytes: [u8; NYM_ADDR_SIZE]) -> (r: Option<Self>)
        ensures
            match r {
                Some(recipient) => recipient_accepts(bytes@) && recipient@ == bytes@,
                None => !recipient_accepts(bytes@),
            },
    {
        match nym_try_from_bytes(bytes) {
            Ok(bytes) => Some(Recipient { bytes }),
            Err(_) => None,
        }
    }

    /// The bytes of the recipient.
    pub fn to_bytes(&self) -> (r: [u8; NYM_ADDR_SIZE])
        ensures
            r@ == self@,
            recipient_accepts(r@),
    {
        proof {
            use_type_invariant(self);
        }
        self.bytes
    }

    /// The text of the recipient, from which it can be read back.
    pub fn to_string(&self) -> (r: String)
        ensures
            r@ == recipient_text(self@),
            recipient_in_text(r@) == Some(self@),
    {
        proof {
            use_type_invariant(self);
        }
        nym_display(self.bytes).unwrap()
    }

    /// The recipient in a text, if there is one.
    pub fn parse(text: &str) -> (r: Option<Self>)
        ensures
            match r {
                Some(recipient) => recipient_in_text(text@) == Some(recipient@)
                    && recipient_accepts(recipient@),
                None => recipient_in_text(text@) is None,
            },
            !text@.contains('@') ==> r is None,
    {
        match nym_from_str(text) {
            Ok(bytes) => Some(Recipient { bytes }),
            Err(_) => None,
        }
    }
}

} // verus!
