use vstd::prelude::*;

use crate::errors::FormatFault;

verus! {

broadcast use vstd::array::group_array_axioms;

/// Size of the serialized frame header in bytes, in every direction.
pub const HEADER_SIZE: usize = 36;

/// The single supported format version.
pub const VERSION: u8 = 1;

/// The four magic signature bytes, "STEG".
pub const MAGIC_0: u8 = 0x53;

pub const MAGIC_1: u8 = 0x54;

pub const MAGIC_2: u8 = 0x45;

pub const MAGIC_3: u8 = 0x47;

/// The fixed-size frame header that precedes every embedded payload.
#[derive(Clone, Copy, Debug)]
pub struct StegoHeader {
    /// Length in bytes of the (possibly encrypted) payload that follows.
    pub total_length: u64,
    /// Reserved offset field; carried on the wire but unused by placement.
    pub current_offset: u64,
    /// First eight bytes of the cryptographic hash of the plaintext.
    pub message_hash: [u8; 8],
    /// Randomly drawn identifier under which the message is indexed.
    pub message_id: u32,
}

/// The eight big-endian bytes of `x`, most significant first.
pub open spec fn spec_u64_to_be_bytes(x: u64) -> Seq<u8> {
    seq![
        (x >> 56u64) as u8,
        (x >> 48u64) as u8,
        (x >> 40u64) as u8,
        (x >> 32u64) as u8,
        (x >> 24u64) as u8,
        (x >> 16u64) as u8,
        (x >> 8u64) as u8,
        x as u8,
    ]
}

/// The value read back from eight big-endian bytes.
pub open spec fn spec_u64_from_be_bytes(s: Seq<u8>) -> u64
    recommends
        s.len() == 8,
{
    (((s[0] as u64) << 56u64) | ((s[1] as u64) << 48u64) | ((s[2] as u64) << 40u64) | ((s[3]
        as u64) << 32u64) | ((s[4] as u64) << 24u64) | ((s[5] as u64) << 16u64) | ((s[6]
        as u64) << 8u64) | (s[7] as u64)) as u64
}

/// The four big-endian bytes of `x`, most significant first.
pub open spec fn spec_u32_to_be_bytes(x: u32) -> Seq<u8> {
    seq![(x >> 24u32) as u8, (x >> 16u32) as u8, (x >> 8u32) as u8, x as u8]
}

/// The value read back from four big-endian bytes.
pub open spec fn spec_u32_from_be_bytes(s: Seq<u8>) -> u32
    recommends
        s.len() == 4,
{
    (((s[0] as u32) << 24u32) | ((s[1] as u32) << 16u32) | ((s[2] as u32) << 8u32) | (s[3]
        as u32)) as u32
}

pub proof fn lemma_u64_be_round_trip(x: u64)
    ensures
        spec_u64_from_be_bytes(spec_u64_to_be_bytes(x)) == x,
{
    assert((((((x >> 56u64) as u8) as u64) << 56u64) | ((((x >> 48u64) as u8) as u64) << 48u64) | ((
    ((x >> 40u64) as u8) as u64) << 40u64) | ((((x >> 32u64) as u8) as u64) << 32u64) | ((((x
        >> 24u64) as u8) as u64) << 24u64) | ((((x >> 16u64) as u8) as u64) << 16u64) | ((((x
        >> 8u64) as u8) as u64) << 8u64) | ((x as u8) as u64)) as u64 == x) by (bit_vector);
}

pub proof fn lemma_u32_be_round_trip(x: u32)
    ensures
        spec_u32_from_be_bytes(spec_u32_to_be_bytes(x)) == x,
{
    assert((((((x >> 24u32) as u8) as u32) << 24u32) | ((((x >> 16u32) as u8) as u32) << 16u32) | ((
    ((x >> 8u32) as u8) as u32) << 8u32) | ((x as u8) as u32)) as u32 == x) by (bit_vector);
}

/// The exact 36-byte wire image of a header given by its fields: magic |
/// version | total_length(BE) | current_offset(BE) | digest | message_id(BE),
/// padded to `HEADER_SIZE` with three zero bytes.
pub open spec fn spec_header_fields_bytes(
    total_length: u64,
    current_offset: u64,
    digest: Seq<u8>,
    message_id: u32,
) -> Seq<u8> {
    seq![MAGIC_0, MAGIC_1, MAGIC_2, MAGIC_3, VERSION] + spec_u64_to_be_bytes(total_length)
        + spec_u64_to_be_bytes(current_offset) + digest + spec_u32_to_be_bytes(message_id) + seq![
        0u8,
        0u8,
        0u8,
    ]
}

/// The wire image of a header value.
pub open spec fn spec_header_bytes(h: StegoHeader) -> Seq<u8> {
    spec_header_fields_bytes(h.total_length, h.current_offset, h.message_hash@, h.message_id)
}

/// The fault, if any, that keeps `data` from being a well-formed header image.
pub open spec fn spec_header_fault(data: Seq<u8>) -> Option<FormatFault> {
    if data.len() != HEADER_SIZE {
        Some(FormatFault::WrongLength { length: data.len() as usize })
    } else if !(data[0] == MAGIC_0 && data[1] == MAGIC_1 && data[2] == MAGIC_2 && data[3]
        == MAGIC_3) {
        Some(FormatFault::WrongMagic)
    } else if data[4] != VERSION {
        Some(FormatFault::WrongVersion { version: data[4] })
    } else {
        None
    }
}

impl StegoHeader {
    /// Serializes the header into its fixed 36-byte wire image.
    pub fn to_bytes(&self) -> (r: Vec<u8>)
        ensures
            r@ == spec_header_bytes(*self),
            r@.len() == HEADER_SIZE,
    {
        let mut buffer: Vec<u8> = Vec::new();
        buffer.push(MAGIC_0);
        buffer.push(MAGIC_1);
        buffer.push(MAGIC_2);
        buffer.push(MAGIC_3);
        buffer.push(VERSION);
        buffer.push((self.total_length >> 56u64) as u8);
        buffer.push((self.total_length >> 48u64) as u8);
        buffer.push((self.total_length >> 40u64) as u8);
        buffer.push((self.total_length >> 32u64) as u8);
        buffer.push((self.total_length >> 24u64) as u8);
        buffer.push((self.total_length >> 16u64) as u8);
        buffer.push((self.total_length >> 8u64) as u8);
        buffer.push(self.total_length as u8);
        buffer.push((self.current_offset >> 56u64) as u8);
        buffer.push((self.current_offset >> 48u64) as u8);
        buffer.push((self.current_offset >> 40u64) as u8);
        buffer.push((self.current_offset >> 32u64) as u8);
        buffer.push((self.current_offset >> 24u64) as u8);
        buffer.push((self.current_offset >> 16u64) as u8);
        buffer.push((self.current_offset >> 8u64) as u8);
        buffer.push(self.current_offset as u8);
        buffer.push(self.message_hash[0]);
        buffer.push(self.message_hash[1]);
        buffer.push(self.message_hash[2]);
        buffer.push(self.message_hash[3]);
        buffer.push(self.message_hash[4]);
        buffer.push(self.message_hash[5]);
        buffer.push(self.message_hash[6]);
        buffer.push(self.message_hash[7]);
        buffer.push((self.message_id >> 24u32) as u8);
        buffer.push((self.message_id >> 16u32) as u8);
        buffer.push((self.message_id >> 8u32) as u8);
        buffer.push(self.message_id as u8);
        buffer.push(0u8);
        buffer.push(0u8);
        buffer.push(0u8);
        proof {
            assert(buffer@ =~= spec_header_bytes(*self));
        }
        buffer
    }

    /// Parses a 36-byte wire image back into a header. Rejects any buffer
    /// whose length, magic signature, or version is wrong.
    pub fn from_bytes(data: &[u8]) -> (r: Result<StegoHeader, FormatFault>)
        ensures
            r is Err <==> spec_header_fault(data@) is Some,
            r matches Err(f) ==> spec_header_fault(data@) == Some(f),
            r matches Ok(h) ==> {
                &&& h.total_length == spec_u64_from_be_bytes(data@.subrange(5, 13))
                &&& h.current_offset == spec_u64_from_be_bytes(data@.subrange(13, 21))
                &&& h.message_hash@ == data@.subrange(21, 29)
                &&& h.message_id == spec_u32_from_be_bytes(data@.subrange(29, 33))
            },
    {
        if data.len() != HEADER_SIZE {
            return Err(FormatFault::WrongLength { length: data.len() });
        }
        if !(data[0] == MAGIC_0 && data[1] == MAGIC_1 && data[2] == MAGIC_2 && data[3] == MAGIC_3) {
            return Err(FormatFault::WrongMagic);
        }
        if data[4] != VERSION {
            return Err(FormatFault::WrongVersion { version: data[4] });
        }
        let total_length = ((data[5] as u64) << 56u64) | ((data[6] as u64) << 48u64) | ((data[7]
            as u64) << 40u64) | ((data[8] as u64) << 32u64) | ((data[9] as u64) << 24u64) | ((
        data[10] as u64) << 16u64) | ((data[11] as u64) << 8u64) | (data[12] as u64);
        let current_offset = ((data[13] as u64) << 56u64) | ((data[14] as u64) << 48u64) | ((
        data[15] as u64) << 40u64) | ((data[16] as u64) << 32u64) | ((data[17] as u64) << 24u64) | (
        (data[18] as u64) << 16u64) | ((data[19] as u64) << 8u64) | (data[20] as u64);
        let message_hash: [u8; 8] = [
            data[21],
            data[22],
            data[23],
            data[24],
            data[25],
            data[26],
            data[27],
            data[28],
        ];
        let message_id = ((data[29] as u32) << 24u32) | ((data[30] as u32) << 16u32) | ((data[31]
            as u32) << 8u32) | (data[32] as u32);
        proof {
            assert(message_hash@ =~= data@.subrange(21, 29));
            assert(data@.subrange(5, 13)[0] == data@[5]);
        }
        Ok(StegoHeader { total_length, current_offset, message_hash, message_id })
    }
}

/// A header image built from fields parses back to exactly those fields.
pub proof fn lemma_header_fields_round_trip(
    total_length: u64,
    current_offset: u64,
    digest: Seq<u8>,
    message_id: u32,
)
    requires
        digest.len() == 8,
    ensures
        spec_header_fields_bytes(total_length, current_offset, digest, message_id).len()
            == HEADER_SIZE,
        spec_header_fault(spec_header_fields_bytes(total_length, current_offset, digest, message_id))
            is None,
        spec_u64_from_be_bytes(
            spec_header_fields_bytes(total_length, current_offset, digest, message_id).subrange(
                5,
                13,
            ),
        ) == total_length,
        spec_u64_from_be_bytes(
            spec_header_fields_bytes(total_length, current_offset, digest, message_id).subrange(
                13,
                21,
            ),
        ) == current_offset,
        spec_header_fields_bytes(total_length, current_offset, digest, message_id).subrange(21, 29)
            == digest,
        spec_u32_from_be_bytes(
            spec_header_fields_bytes(total_length, current_offset, digest, message_id).subrange(
                29,
                33,
            ),
        ) == message_id,
{
    let b = spec_header_fields_bytes(total_length, current_offset, digest, message_id);
    assert(b.subrange(5, 13) =~= spec_u64_to_be_bytes(total_length));
    assert(b.subrange(13, 21) =~= spec_u64_to_be_bytes(current_offset));
    assert(b.subrange(21, 29) =~= digest);
    assert(b.subrange(29, 33) =~= spec_u32_to_be_bytes(message_id));
    lemma_u64_be_round_trip(total_length);
    lemma_u64_be_round_trip(current_offset);
    lemma_u32_be_round_trip(message_id);
}

/// A header survives serialization: parsing its wire image succeeds and
/// recovers every field.
pub proof fn lemma_header_round_trip(h: StegoHeader)
    ensures
        spec_header_fault(spec_header_bytes(h)) is None,
        spec_u64_from_be_bytes(spec_header_bytes(h).subrange(5, 13)) == h.total_length,
        spec_u64_from_be_bytes(spec_header_bytes(h).subrange(13, 21)) == h.current_offset,
        spec_header_bytes(h).subrange(21, 29) == h.message_hash@,
        spec_u32_from_be_bytes(spec_header_bytes(h).subrange(29, 33)) == h.message_id,
{
    lemma_header_fields_round_trip(h.total_length, h.current_offset, h.message_hash@, h.message_id);
}

} // verus!
