//! The postcard encoding of the three fields of a packet.
//!
//! Postcard writes a byte string as a varint length and the bytes, an option as
//! a tag byte and the value, and a compound as its fields one after the other,
//! with nothing in between. A varint holds seven bits per byte, lowest first, and
//! every byte but the last has its top bit set.

use vstd::arithmetic::power2::{lemma2_to64, lemma_pow2_adds, lemma_pow2_strictly_increases, pow2};
use vstd::prelude::*;

verus! {

/// What a packet holds, as mathematical values.
#[verifier::ext_equal]
pub struct PacketView {
    pub from: Seq<u8>,
    pub segment_size: Option<u16>,
    pub data: Seq<u8>,
}

/// The packet with these fields.
pub open spec fn packet_of(
    from: Seq<u8>,
    segment_size: Option<u16>,
    data: Seq<u8>,
) -> PacketView {
    PacketView { from, segment_size, data }
}

/// The varint that stands for `n`, in its shortest form.
pub open spec fn varint(n: nat) -> Seq<u8>
    decreases n,
{
    if n < 128 {
        seq![n as u8]
    } else {
        seq![(128 + n % 128) as u8] + varint(n / 128)
    }
}

/// The encoding of a byte string.
pub open spec fn bytes_field(bytes: Seq<u8>) -> Seq<u8> {
    varint(bytes.len()) + bytes
}

/// The encoding of an optional `u16`.
pub open spec fn option_field(value: Option<u16>) -> Seq<u8> {
    match value {
        None => seq![0u8],
        Some(v) => seq![1u8] + varint(v as nat),
    }
}

/// The encoding of a packet.
pub open spec fn packet_wire(packet: PacketView) -> Seq<u8> {
    bytes_field(packet.from) + option_field(packet.segment_size) + bytes_field(packet.data)
}

/// Reads the varint of a `bits`-bit integer off the front of `input`: its value and
/// what comes after it. The last byte must fit in the bits that the bytes before it
/// have left; a longer form than the shortest is read as well.
pub open spec fn take_varint(input: Seq<u8>, bits: nat) -> Option<(nat, Seq<u8>)>
    decreases input.len(),
{
    if input.len() == 0 || bits == 0 {
        None
    } else if input[0] < 128 {
        if bits >= 7 || input[0] < pow2(bits) {
            Some((input[0] as nat, input.skip(1)))
        } else {
            None
        }
    } else {
        match take_varint(input.skip(1), if bits < 7 { 0 } else { (bits - 7) as nat }) {
            Some((high, rest)) => Some(((input[0] - 128 + 128 * high) as nat, rest)),
            None => None,
        }
    }
}

/// Reads a byte string off the front of `input`.
pub open spec fn take_bytes(input: Seq<u8>) -> Option<(Seq<u8>, Seq<u8>)> {
    match take_varint(input, usize::BITS as nat) {
        Some((len, rest)) => if len <= rest.len() {
            Some((rest.take(len as int), rest.skip(len as int)))
        } else {
            None
        },
        None => None,
    }
}

/// Reads an optional `u16` off the front of `input`.
pub open spec fn take_option(input: Seq<u8>) -> Option<(Option<u16>, Seq<u8>)> {
    if input.len() == 0 {
        None
    } else if input[0] == 0 {
        Some((None, input.skip(1)))
    } else if input[0] == 1 {
        match take_varint(input.skip(1), u16::BITS as nat) {
            Some((value, rest)) => Some((Some(value as u16), rest)),
            None => None,
        }
    } else {
        None
    }
}

/// The packet at the front of `input`, where there is one. Bytes after it are
/// disregarded.
pub open spec fn packet_at(input: Seq<u8>) -> Option<PacketView> {
    match take_bytes(input) {
        Some((from, after_from)) => match take_option(after_from) {
            Some((segment_size, after_size)) => match take_bytes(after_size) {
                Some((data, _)) => Some(PacketView { from, segment_size, data }),
                None => None,
            },
            None => None,
        },
        None => None,
    }
}

/// The most bytes that the two byte strings of a packet may hold together. The
/// lengths and the segment size take up to 24 bytes more, and a `Vec` that doubles its
/// capacity up to that size stays within its own limit of `isize::MAX` bytes.
pub const MAX_FIELD_BYTES: usize = usize::MAX / 4 - 24;

#[verifier::external_type_specification]
#[verifier::external_body]
pub struct ExPostcardError(postcard::Error);

/// `postcard::to_allocvec` on the three fields as a tuple, which it writes as it
/// does a struct: the fields in order, byte strings and the option as in
/// [`packet_wire`]. Writing to a `Vec` reports no error.
#[verifier::external_body]
pub(crate) fn postcard_to_allocvec(from: &[u8], segment_size: Option<u16>, data: &[u8]) -> (r: Result<
    Vec<u8>,
    postcard::Error,
>)
    requires
        from@.len() + data@.len() <= MAX_FIELD_BYTES,
    ensures
        r is Ok,
        r->Ok_0@ == packet_wire(packet_of(from@, segment_size, data@)),
{
    let fields = (serde_bytes::Bytes::new(from), segment_size, serde_bytes::Bytes::new(data));
    postcard::to_allocvec(&fields)
}

/// `postcard::from_bytes` for the three fields as a tuple, which it reads as it does
/// a struct. It fails where no packet stands at the front of the input, and does not
/// look at what follows one.
#[verifier::external_body]
pub(crate) fn postcard_from_bytes(input: &[u8]) -> (r: Result<
    (Vec<u8>, Option<u16>, Vec<u8>),
    postcard::Error,
>)
    ensures
        match r {
            Ok((from, size, data)) => packet_at(input@) == Some(packet_of(from@, size, data@)),
            Err(_) => packet_at(input@) is None,
        },
{
    let (from, segment_size, data): (serde_bytes::ByteBuf, Option<u16>, serde_bytes::ByteBuf) =
        postcard::from_bytes(input)?;
    Ok((from.into_vec(), segment_size, data.into_vec()))
}

/// Reading undoes writing: the packet at the front of a packet's encoding, whatever
/// follows it, is that packet. The lengths are those that a machine can hold.
pub proof fn law_read_undoes_write(packet: PacketView, after: Seq<u8>)
    requires
        packet.from.len() <= usize::MAX,
        packet.data.len() <= usize::MAX,
    ensures
        packet_at(packet_wire(packet) + after) == Some(packet),
{
    let from = bytes_field(packet.from);
    let size = option_field(packet.segment_size);
    let data = bytes_field(packet.data);
    let input = packet_wire(packet) + after;
    assert(input =~= from + (size + (data + after)));
    lemma_take_bytes(packet.from, size + (data + after));
    lemma_take_option(packet.segment_size, data + after);
    lemma_take_bytes(packet.data, after);
}

/// Two packets with the same encoding are the same packet.
pub proof fn law_encoding_is_injective(a: PacketView, b: PacketView)
    requires
        a.from.len() <= usize::MAX,
        a.data.len() <= usize::MAX,
        b.from.len() <= usize::MAX,
        b.data.len() <= usize::MAX,
        packet_wire(a) == packet_wire(b),
    ensures
        a == b,
{
    law_read_undoes_write(a, Seq::empty());
    law_read_undoes_write(b, Seq::empty());
}

/// No packet's encoding is a proper prefix of another packet's encoding.
pub proof fn law_encoding_is_prefix_free(a: PacketView, b: PacketView, after: Seq<u8>)
    requires
        a.from.len() <= usize::MAX,
        a.data.len() <= usize::MAX,
        b.from.len() <= usize::MAX,
        b.data.len() <= usize::MAX,
        packet_wire(a) + after == packet_wire(b),
    ensures
        a == b,
        after.len() == 0,
{
    law_read_undoes_write(a, after);
    law_read_undoes_write(b, Seq::empty());
    assert(packet_wire(b) + Seq::<u8>::empty() =~= packet_wire(b));
    assert((packet_wire(a) + after).len() == packet_wire(a).len() + after.len());
}

/// An encoding that is cut off anywhere is no packet.
pub proof fn law_cut_off_is_no_packet(packet: PacketView, len: int)
    requires
        packet.from.len() <= usize::MAX,
        packet.data.len() <= usize::MAX,
        0 <= len < packet_wire(packet).len(),
    ensures
        packet_at(packet_wire(packet).take(len)) is None,
{
    let wire = packet_wire(packet);
    let cut = wire.take(len);
    let lost = wire.skip(len);
    if packet_at(cut) is Some {
        let size = option_field(packet.segment_size);
        let data = bytes_field(packet.data);
        let (_, after_from) = take_bytes(cut)->0;
        let (_, after_size) = take_option(after_from)->0;
        let (_, after_data) = take_bytes(after_size)->0;
        assert(cut + lost =~= wire);
        assert(wire =~= bytes_field(packet.from) + (size + data));
        assert(data + Seq::<u8>::empty() =~= data);
        lemma_take_bytes(packet.from, size + data);
        lemma_take_option(packet.segment_size, data);
        lemma_take_bytes(packet.data, Seq::empty());
        lemma_take_bytes_more(cut, lost);
        lemma_take_option_more(after_from, lost);
        lemma_take_bytes_more(after_size, lost);
        assert((after_data + lost).len() == 0);
    }
}

/// The encoding of a packet is from 3 to 24 bytes longer than its two byte strings.
pub proof fn law_wire_length(packet: PacketView)
    requires
        packet.from.len() <= usize::MAX,
        packet.data.len() <= usize::MAX,
    ensures
        packet.from.len() + packet.data.len() + 3 <= packet_wire(packet).len(),
        packet_wire(packet).len() <= packet.from.len() + packet.data.len() + 24,
{
    lemma2_to64();
    lemma_pow2_strictly_increases(64, 70);
    lemma_varint_len(packet.from.len(), 10);
    lemma_varint_len(packet.data.len(), 10);
    match packet.segment_size {
        Some(v) => lemma_varint_len(v as nat, 3),
        None => {},
    }
}

proof fn lemma_take_bytes(bytes: Seq<u8>, after: Seq<u8>)
    requires
        bytes.len() <= usize::MAX,
    ensures
        take_bytes(bytes_field(bytes) + after) == Some((bytes, after)),
{
    vstd::layout::unsigned_int_max_values();
    let rest = bytes + after;
    assert(bytes_field(bytes) + after =~= varint(bytes.len()) + rest);
    lemma_take_varint(bytes.len(), usize::BITS as nat, rest);
    assert(rest.take(bytes.len() as int) =~= bytes);
    assert(rest.skip(bytes.len() as int) =~= after);
}

proof fn lemma_take_option(value: Option<u16>, after: Seq<u8>)
    ensures
        take_option(option_field(value) + after) == Some((value, after)),
{
    let input = option_field(value) + after;
    match value {
        None => assert(input.skip(1) =~= after),
        Some(v) => {
            lemma2_to64();
            assert(input.skip(1) =~= varint(v as nat) + after);
            lemma_take_varint(v as nat, u16::BITS as nat, after);
        },
    }
}

proof fn lemma_take_bytes_more(input: Seq<u8>, more: Seq<u8>)
    requires
        take_bytes(input) is Some,
    ensures
        take_bytes(input) matches Some((bytes, rest)) && take_bytes(input + more) == Some(
            (bytes, rest + more),
        ),
{
    let (len, rest) = take_varint(input, usize::BITS as nat)->0;
    lemma_take_varint_more(input, usize::BITS as nat, more);
    assert((rest + more).take(len as int) =~= rest.take(len as int));
    assert((rest + more).skip(len as int) =~= rest.skip(len as int) + more);
}

proof fn lemma_take_option_more(input: Seq<u8>, more: Seq<u8>)
    requires
        take_option(input) is Some,
    ensures
        take_option(input) matches Some((value, rest)) && take_option(input + more) == Some(
            (value, rest + more),
        ),
{
    assert((input + more).skip(1) =~= input.skip(1) + more);
    if input[0] == 1 {
        lemma_take_varint_more(input.skip(1), u16::BITS as nat, more);
    }
}

proof fn lemma_take_varint_more(input: Seq<u8>, bits: nat, more: Seq<u8>)
    requires
        take_varint(input, bits) is Some,
    ensures
        take_varint(input, bits) matches Some((value, rest)) && take_varint(input + more, bits)
            == Some((value, rest + more)),
    decreases input.len(),
{
    assert((input + more).skip(1) =~= input.skip(1) + more);
    if input[0] >= 128 {
        let left = if bits < 7 {
            0
        } else {
            (bits - 7) as nat
        };
        lemma_take_varint_more(input.skip(1), left, more);
    }
}

proof fn lemma_varint_len(n: nat, most: nat)
    requires
        most > 0,
        n < pow2(7 * most),
    ensures
        1 <= varint(n).len() <= most,
    decreases n,
{
    if n >= 128 {
        lemma_bits_left(n, 7 * most);
        lemma_varint_len(n / 128, (most - 1) as nat);
    }
}

proof fn lemma_take_varint(n: nat, bits: nat, rest: Seq<u8>)
    requires
        n < pow2(bits),
        bits > 0,
    ensures
        take_varint(varint(n) + rest, bits) == Some((n, rest)),
    decreases n,
{
    let input = varint(n) + rest;
    if n < 128 {
        assert(input.skip(1) =~= rest);
    } else {
        lemma_bits_left(n, bits);
        let low = (bits - 7) as nat;
        assert(input.skip(1) =~= varint(n / 128) + rest);
        lemma_take_varint(n / 128, low, rest);
    }
}

proof fn lemma_bits_left(n: nat, bits: nat)
    requires
        128 <= n < pow2(bits),
    ensures
        bits > 7,
        n / 128 < pow2((bits - 7) as nat),
{
    lemma2_to64();
    if bits <= 7 {
        if bits < 7 {
            lemma_pow2_strictly_increases(bits, 7);
        }
        assert(false);
    }
    lemma_pow2_adds(7, (bits - 7) as nat);
}


/// The number that bytes stand for with seven bits each, lowest first.
pub open spec fn groups(bytes: Seq<u8>) -> nat
    decreases bytes.len(),
{
    if bytes.len() == 0 {
        0
    } else {
        (bytes[0] % 128) as nat + 128 * groups(bytes.skip(1))
    }
}

/// A varint has the number in groups of seven bits, lowest first, the top bit of every byte
/// but the last, and no byte more than it needs.
pub proof fn law_varint_holds_the_number(n: nat)
    ensures
        ({
            let bytes = varint(n);
            &&& bytes.len() > 0
            &&& groups(bytes) == n
            &&& bytes.last() < 128
            &&& bytes.len() > 1 ==> bytes.last() > 0
            &&& forall|i: int| 0 <= i < bytes.len() - 1 ==> bytes[i] >= 128
        }),
    decreases n,
{
    let bytes = varint(n);
    reveal_with_fuel(groups, 2);
    if n < 128 {
        assert(bytes.skip(1) =~= Seq::empty());
    } else {
        let rest = varint(n / 128);
        law_varint_holds_the_number(n / 128);
        assert(bytes.skip(1) =~= rest);
        assert(bytes.last() == rest.last());
        assert forall|i: int| 0 <= i < bytes.len() - 1 implies bytes[i] >= 128 by {
            if i > 0 {
                assert(bytes[i] == rest[i - 1]);
            }
        }
    }
}

/// A varint is read up to its first byte without the top bit, as the number in its groups
/// of seven bits, in the shortest form or a longer one, exactly where the groups do not go
/// beyond the bits of the integer; and what follows is left.
pub proof fn law_varint_is_read_by_groups(input: Seq<u8>, bits: nat, last: int)
    requires
        0 <= last < input.len(),
        input[last] < 128,
        forall|i: int| 0 <= i < last ==> input[i] >= 128,
    ensures
        take_varint(input, bits) is Some <==> 7 * last < bits && (7 * last + 7 <= bits
            || input[last] < pow2((bits - 7 * last) as nat)),
        take_varint(input, bits) matches Some((n, rest)) ==> n == groups(input.take(last + 1))
            && rest == input.skip(last + 1),
    decreases input.len(),
{
    let read = input.take(last + 1);
    if last == 0 {
        reveal_with_fuel(groups, 2);
        assert(read.skip(1) =~= Seq::empty());
    } else if bits < 7 {
        assert(take_varint(input.skip(1), 0) is None);
    } else {
        let left = (bits - 7) as nat;
        law_varint_is_read_by_groups(input.skip(1), left, last - 1);
        assert(input.skip(1).take(last) =~= read.skip(1));
        assert(input.skip(1).skip(last) =~= input.skip(last + 1));
        assert(left - 7 * (last - 1) == bits - 7 * last);
    }
}

/// Where every byte has its top bit, the varint has no end and is not read.
pub proof fn law_endless_varint_is_not_read(input: Seq<u8>, bits: nat)
    requires
        forall|i: int| 0 <= i < input.len() ==> input[i] >= 128,
    ensures
        take_varint(input, bits) is None,
    decreases input.len(),
{
    if input.len() > 0 {
        law_endless_varint_is_not_read(input.skip(1), if bits < 7 { 0 } else { (bits - 7) as nat });
    }
}

/// A byte string is written as its length and then its bytes, unchanged; an option as one
/// byte, 0, or as the byte 1 and the value; and a packet as its source, its segment size and
/// its data.
pub proof fn law_fields_are_written_in_order(packet: PacketView, bytes: Seq<u8>, value: u16)
    ensures
        bytes_field(bytes).len() == varint(bytes.len()).len() + bytes.len(),
        bytes_field(bytes).take(varint(bytes.len()).len() as int) == varint(bytes.len()),
        bytes_field(bytes).skip(varint(bytes.len()).len() as int) == bytes,
        option_field(None) == seq![0u8],
        option_field(Some(value))[0] == 1,
        option_field(Some(value)).skip(1) == varint(value as nat),
        option_field(Some(value)).len() == 1 + varint(value as nat).len(),
        packet_wire(packet).len() == bytes_field(packet.from).len() + option_field(
            packet.segment_size,
        ).len() + bytes_field(packet.data).len(),
        bytes_field(packet.from).is_prefix_of(packet_wire(packet)),
        bytes_field(packet.data).is_suffix_of(packet_wire(packet)),
        packet_wire(packet).subrange(
            bytes_field(packet.from).len() as int,
            (bytes_field(packet.from).len() + option_field(packet.segment_size).len()) as int,
        ) == option_field(packet.segment_size),
{
    assert(bytes_field(bytes).take(varint(bytes.len()).len() as int) =~= varint(bytes.len()));
    assert(bytes_field(bytes).skip(varint(bytes.len()).len() as int) =~= bytes);
    assert(option_field(Some(value)).skip(1) =~= varint(value as nat));
}

/// A byte string is read as many bytes as its length says, unchanged, with what follows
/// left, exactly where there are that many.
pub proof fn law_bytes_are_read_as_they_are(input: Seq<u8>)
    ensures
        take_bytes(input) is Some <==> {
            &&& take_varint(input, usize::BITS as nat) matches Some((len, rest))
            &&& len <= rest.len()
        },
        take_bytes(input) matches Some((bytes, after)) ==> {
            &&& take_varint(input, usize::BITS as nat) matches Some((len, rest))
            &&& bytes.len() == len
            &&& bytes + after == rest
        },
{
    if take_bytes(input) is Some {
        let (bytes, after) = take_bytes(input)->0;
        let (len, rest) = take_varint(input, usize::BITS as nat)->0;
        assert(bytes + after =~= rest);
    }
}

/// An option is read as none from the byte 0, as the value that follows from the byte 1, and
/// not from any other byte. The value is not cut to size: it is one that sixteen bits hold.
pub proof fn law_option_is_read_by_its_tag(input: Seq<u8>)
    ensures
        input.len() == 0 ==> take_option(input) is None,
        input.len() > 0 && input[0] > 1 ==> take_option(input) is None,
        input.len() > 0 && input[0] == 0 ==> take_option(input) == Some(
            (None::<u16>, input.skip(1)),
        ),
        input.len() > 0 && input[0] == 1 ==> {
            &&& take_option(input) is Some <==> take_varint(input.skip(1), 16) is Some
            &&& take_option(input) matches Some((value, after)) ==> {
                &&& value matches Some(v)
                &&& take_varint(input.skip(1), 16) == Some((v as nat, after))
            }
        },
{
    lemma2_to64();
    if input.len() > 0 && input[0] == 1 && take_option(input) is Some {
        lemma_varint_fits(input.skip(1), 16);
    }
}

/// A packet is read field by field: its source, its segment size and its data, each from
/// where the one before it ends; and no packet is read where one of them is not.
pub proof fn law_packet_is_read_field_by_field(input: Seq<u8>)
    ensures
        take_bytes(input) is None ==> packet_at(input) is None,
        take_bytes(input) matches Some((from, after_from)) ==> {
            &&& take_option(after_from) is None ==> packet_at(input) is None
            &&& take_option(after_from) matches Some((size, after_size)) ==> {
                &&& take_bytes(after_size) is None <==> packet_at(input) is None
                &&& take_bytes(after_size) matches Some((data, _)) ==> {
                    &&& packet_at(input) matches Some(packet)
                    &&& packet.from == from
                    &&& packet.segment_size == size
                    &&& packet.data == data
                }
            }
        },
{
}

/// A packet has the fields that it is made of.
pub proof fn law_packet_has_its_fields(from: Seq<u8>, segment_size: Option<u16>, data: Seq<u8>)
    ensures
        packet_of(from, segment_size, data).from == from,
        packet_of(from, segment_size, data).segment_size == segment_size,
        packet_of(from, segment_size, data).data == data,
{
}

proof fn lemma_varint_fits(input: Seq<u8>, bits: nat)
    requires
        take_varint(input, bits) is Some,
    ensures
        take_varint(input, bits) matches Some((n, _)) && n < pow2(bits),
    decreases input.len(),
{
    lemma2_to64();
    if bits > 7 {
        lemma_pow2_strictly_increases(7, bits);
    }
    if input[0] >= 128 && bits >= 7 {
        lemma_varint_fits(input.skip(1), (bits - 7) as nat);
        lemma_pow2_adds(7, (bits - 7) as nat);
    }
}

} // verus!
