//! Addresses of iroh custom transports, as plain values.

use vstd::prelude::*;

verus! {

/// An address of a custom transport: the transport's id and bytes that only that
/// transport interprets.
#[derive(Debug, Clone)]
pub struct CustomAddr {
    id: u64,
    data: Vec<u8>,
}

/// What a custom address holds, as mathematical values.
#[verifier::ext_equal]
pub struct CustomAddrView {
    pub id: u64,
    pub data: Seq<u8>,
}

impl View for CustomAddr {
    type V = CustomAddrView;

    closed spec fn view(&self) -> CustomAddrView {
        CustomAddrView { id: self.id, data: self.data@ }
    }
}

impl CustomAddr {
    /// Creates an address from a transport id and address bytes.
    pub fn from_parts(id: u64, data: &[u8]) -> (r: Self)
        ensures
            r@ == (CustomAddrView { id, data: data@ }),
    {
        CustomAddr { id, data: vstd::slice::slice_to_vec(data) }
    }

    /// The id of the transport.
    pub fn id(&self) -> (r: u64)
        ensures
            r == self@.id,
    {
        self.id
    }

    /// The address bytes.
    pub fn data(&self) -> (r: &[u8])
        ensures
            r@ == self@.data,
    {
        self.data.as_slice()
    }
}

} // verus!
