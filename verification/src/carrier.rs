use vstd::prelude::*;

use crate::errors::StegoError;

verus! {

/// An in-memory carrier image: a rectangular grid of pixels, three channel
/// bytes per pixel, flattened row-major with the channels of one pixel
/// adjacent. The channel holding absolute bit position `b` of the hidden
/// stream is exactly `pixels[b]`: pixel `b / 3`, channel `b % 3`.
#[derive(Debug)]
pub struct Carrier {
    /// Identity of the carrier (the path it was read from and is saved to).
    pub path: String,
    /// Width of the grid in pixels.
    pub width: u32,
    /// Height of the grid in pixels.
    pub height: u32,
    /// Flattened channel bytes, `3 * width * height` of them.
    pub pixels: Vec<u8>,
}

impl Carrier {
    /// The pixel buffer holds exactly three channel bytes per pixel.
    pub open spec fn wf(self) -> bool {
        self.pixels@.len() == 3 * (self.width as int) * (self.height as int)
    }

    /// Builds a carrier after checking that the buffer matches the declared
    /// dimensions; a mismatched buffer is reported as a read failure.
    pub fn new(path: String, width: u32, height: u32, pixels: Vec<u8>) -> (r: Result<
        Carrier,
        StegoError,
    >)
        ensures
            (r is Ok) == (pixels@.len() == 3 * (width as int) * (height as int)),
            r matches Ok(c) ==> c == (Carrier { path, width, height, pixels }) && c.wf(),
            r matches Err(e) ==> e == StegoError::IOError,
    {
        proof {
            assert(3 * (width as int) * (height as int) < 0x1_0000_0000_0000_0000_0000)
                by (nonlinear_arith)
                requires
                    width <= 0xffff_ffffu32,
                    height <= 0xffff_ffffu32,
            ;
        }
        let expected: u128 = 3u128 * (width as u128) * (height as u128);
        if (pixels.len() as u128) == expected {
            Ok(Carrier { path, width, height, pixels })
        } else {
            Err(StegoError::IOError)
        }
    }
}

/// The hidden-stream bit stored in one channel byte: the single designated
/// bit at position `bits_per_channel - 1`.
pub open spec fn spec_plane_bit(chan: u8, bits_per_channel: u8) -> u8 {
    (chan >> ((bits_per_channel - 1) as u8)) & 1
}

/// One channel byte after one hidden bit is written into it: the designated
/// bit position is cleared and set to `bit`; every other bit is untouched.
pub open spec fn spec_write_bit(chan: u8, bit: u8, bits_per_channel: u8) -> u8 {
    (chan & !(1u8 << ((bits_per_channel - 1) as u8))) | ((bit << ((bits_per_channel - 1) as u8))
        as u8)
}

/// Bit `i` of a byte sequence, most significant bit of each byte first.
pub open spec fn spec_data_bit(data: Seq<u8>, i: int) -> u8 {
    (data[i / 8] >> ((7 - (i % 8)) as u8)) & 1
}

/// The grid after the first `nbits` bits of `data` are written starting at
/// byte offset `offset`: every overlapping channel carries its hidden bit,
/// every other channel byte is unchanged. Channels past the end of the grid
/// are simply not there to write.
pub open spec fn spec_embedded_upto(
    pixels: Seq<u8>,
    data: Seq<u8>,
    offset: int,
    bits_per_channel: u8,
    nbits: int,
) -> Seq<u8> {
    Seq::new(
        pixels.len(),
        |j: int|
            if offset * 8 <= j < offset * 8 + nbits {
                spec_write_bit(pixels[j], spec_data_bit(data, j - offset * 8), bits_per_channel)
            } else {
                pixels[j]
            },
    )
}

/// The grid after all of `data` is written starting at byte offset `offset`.
pub open spec fn spec_embedded(
    pixels: Seq<u8>,
    data: Seq<u8>,
    offset: int,
    bits_per_channel: u8,
) -> Seq<u8> {
    spec_embedded_upto(pixels, data, offset, bits_per_channel, 8 * (data.len() as int))
}

/// The byte assembled from eight consecutive hidden bits starting at
/// absolute bit position `s`, most significant bit first.
pub open spec fn spec_extract_byte(pixels: Seq<u8>, bits_per_channel: u8, s: int) -> u8 {
    let b0 = spec_plane_bit(pixels[s], bits_per_channel);
    let b1 = spec_plane_bit(pixels[s + 1], bits_per_channel);
    let b2 = spec_plane_bit(pixels[s + 2], bits_per_channel);
    let b3 = spec_plane_bit(pixels[s + 3], bits_per_channel);
    let b4 = spec_plane_bit(pixels[s + 4], bits_per_channel);
    let b5 = spec_plane_bit(pixels[s + 5], bits_per_channel);
    let b6 = spec_plane_bit(pixels[s + 6], bits_per_channel);
    let b7 = spec_plane_bit(pixels[s + 7], bits_per_channel);
    (b0 << 7u8) | (b1 << 6u8) | (b2 << 5u8) | (b3 << 4u8) | (b4 << 3u8) | (b5 << 2u8) | (b6 << 1u8)
        | b7
}

/// `count` consecutive bytes extracted from the grid starting at byte
/// offset `offset`.
pub open spec fn spec_extracted_bytes(
    pixels: Seq<u8>,
    bits_per_channel: u8,
    offset: int,
    count: int,
) -> Seq<u8> {
    Seq::new(count as nat, |k: int| spec_extract_byte(pixels, bits_per_channel, offset * 8 + 8 * k))
}

/// Reading the designated bit back from a channel it was just written to
/// yields the written bit.
pub proof fn lemma_write_then_read(chan: u8, bit: u8, bits_per_channel: u8)
    requires
        1 <= bits_per_channel <= 3,
        bit <= 1,
    ensures
        spec_plane_bit(spec_write_bit(chan, bit, bits_per_channel), bits_per_channel) == bit,
{
    let s = (bits_per_channel - 1) as u8;
    assert((((chan & !(1u8 << s)) | ((bit << s) as u8)) >> s) & 1 == bit) by (bit_vector)
        requires
            s <= 2,
            bit <= 1,
    ;
}

/// Writing a hidden bit perturbs nothing but the designated bit position of
/// the channel byte.
pub proof fn lemma_write_preserves_other_bits(chan: u8, bit: u8, bits_per_channel: u8, p: u8)
    requires
        1 <= bits_per_channel <= 3,
        bit <= 1,
        p <= 7,
        p != bits_per_channel - 1,
    ensures
        (spec_write_bit(chan, bit, bits_per_channel) >> p) & 1 == (chan >> p) & 1,
{
    let s = (bits_per_channel - 1) as u8;
    assert((((chan & !(1u8 << s)) | ((bit << s) as u8)) >> p) & 1 == (chan >> p) & 1)
        by (bit_vector)
        requires
            s <= 2,
            bit <= 1,
            p <= 7,
            p != s,
    ;
}

/// Packing the eight bits of a byte, most significant first, gives the byte
/// back.
proof fn lemma_pack_bits_of_byte(x: u8)
    ensures
        (((x >> 7u8) & 1) << 7u8) | (((x >> 6u8) & 1) << 6u8) | (((x >> 5u8) & 1) << 5u8) | (((x
            >> 4u8) & 1) << 4u8) | (((x >> 3u8) & 1) << 3u8) | (((x >> 2u8) & 1) << 2u8) | (((x
            >> 1u8) & 1) << 1u8) | (x & 1) == x,
{
    assert((((x >> 7u8) & 1) << 7u8) | (((x >> 6u8) & 1) << 6u8) | (((x >> 5u8) & 1) << 5u8) | (((x
        >> 4u8) & 1) << 4u8) | (((x >> 3u8) & 1) << 3u8) | (((x >> 2u8) & 1) << 2u8) | (((x >> 1u8)
        & 1) << 1u8) | (x & 1) == x) by (bit_vector);
}

/// Every byte of `data`, read back from the grid it was embedded into, is
/// the byte that was written: the engine's read operation inverts its write
/// operation over the whole embedded range.
pub proof fn lemma_extract_byte_of_embedded(
    pixels: Seq<u8>,
    data: Seq<u8>,
    offset: int,
    bits_per_channel: u8,
    k: int,
)
    requires
        1 <= bits_per_channel <= 3,
        0 <= offset,
        0 <= k < data.len(),
        offset * 8 + 8 * data.len() <= pixels.len(),
    ensures
        spec_extract_byte(
            spec_embedded(pixels, data, offset, bits_per_channel),
            bits_per_channel,
            offset * 8 + 8 * k,
        ) == data[k],
{
    lemma_embedded_bit(pixels, data, offset, bits_per_channel, k, 0);
    lemma_embedded_bit(pixels, data, offset, bits_per_channel, k, 1);
    lemma_embedded_bit(pixels, data, offset, bits_per_channel, k, 2);
    lemma_embedded_bit(pixels, data, offset, bits_per_channel, k, 3);
    lemma_embedded_bit(pixels, data, offset, bits_per_channel, k, 4);
    lemma_embedded_bit(pixels, data, offset, bits_per_channel, k, 5);
    lemma_embedded_bit(pixels, data, offset, bits_per_channel, k, 6);
    lemma_embedded_bit(pixels, data, offset, bits_per_channel, k, 7);
    let emb = spec_embedded(pixels, data, offset, bits_per_channel);
    let s = offset * 8 + 8 * k;
    let x = data[k];
    assert(spec_plane_bit(emb[s], bits_per_channel) == (x >> 7u8) & 1);
    assert(spec_plane_bit(emb[s + 1], bits_per_channel) == (x >> 6u8) & 1);
    assert(spec_plane_bit(emb[s + 2], bits_per_channel) == (x >> 5u8) & 1);
    assert(spec_plane_bit(emb[s + 3], bits_per_channel) == (x >> 4u8) & 1);
    assert(spec_plane_bit(emb[s + 4], bits_per_channel) == (x >> 3u8) & 1);
    assert(spec_plane_bit(emb[s + 5], bits_per_channel) == (x >> 2u8) & 1);
    assert(spec_plane_bit(emb[s + 6], bits_per_channel) == (x >> 1u8) & 1);
    assert(spec_plane_bit(emb[s + 7], bits_per_channel) == (x >> 0u8) & 1);
    assert((x >> 0u8) & 1 == x & 1) by (bit_vector);
    lemma_pack_bits_of_byte(x);
}

/// The hidden bit read back from channel `offset * 8 + 8 * k + i` of the
/// embedded grid is bit `i` of byte `k` of the embedded data.
proof fn lemma_embedded_bit(
    pixels: Seq<u8>,
    data: Seq<u8>,
    offset: int,
    bits_per_channel: u8,
    k: int,
    i: int,
)
    requires
        1 <= bits_per_channel <= 3,
        0 <= offset,
        0 <= k < data.len(),
        0 <= i < 8,
        offset * 8 + 8 * data.len() <= pixels.len(),
    ensures
        spec_plane_bit(
            spec_embedded(pixels, data, offset, bits_per_channel)[offset * 8 + 8 * k + i],
            bits_per_channel,
        ) == (data[k] >> ((7 - i) as u8)) & 1,
{
    let emb = spec_embedded(pixels, data, offset, bits_per_channel);
    let j = offset * 8 + 8 * k + i;
    assert(8 * k + i < 8 * data.len());
    assert(offset * 8 <= j < offset * 8 + 8 * data.len());
    assert(emb[j] == spec_write_bit(
        pixels[j],
        spec_data_bit(data, 8 * k + i),
        bits_per_channel,
    ));
    assert((8 * k + i) / 8 == k && (8 * k + i) % 8 == i) by (nonlinear_arith)
        requires
            0 <= i < 8,
            0 <= k,
    ;
    let b = (data[k] >> ((7 - i) as u8)) & 1;
    assert(spec_data_bit(data, 8 * k + i) == b);
    let y = data[k];
    let sh = (7 - i) as u8;
    assert((y >> sh) & 1 <= 1) by (bit_vector);
    lemma_write_then_read(pixels[j], b, bits_per_channel);
}

/// Extracting `count` bytes from the embedded grid, starting `skip` bytes
/// into the embedded data, returns exactly that slice of the data.
pub proof fn lemma_extracted_embedded(
    pixels: Seq<u8>,
    data: Seq<u8>,
    offset: int,
    bits_per_channel: u8,
    skip: int,
    count: int,
)
    requires
        1 <= bits_per_channel <= 3,
        0 <= offset,
        0 <= skip,
        0 <= count,
        skip + count <= data.len(),
        offset * 8 + 8 * data.len() <= pixels.len(),
    ensures
        spec_extracted_bytes(
            spec_embedded(pixels, data, offset, bits_per_channel),
            bits_per_channel,
            offset + skip,
            count,
        ) == data.subrange(skip, skip + count),
{
    let emb = spec_embedded(pixels, data, offset, bits_per_channel);
    let ex = spec_extracted_bytes(emb, bits_per_channel, offset + skip, count);
    assert forall|k: int| 0 <= k < count implies ex[k] == data[skip + k] by {
        assert((offset + skip) * 8 + 8 * k == offset * 8 + 8 * (skip + k)) by (nonlinear_arith);
        lemma_extract_byte_of_embedded(pixels, data, offset, bits_per_channel, skip + k);
    }
    assert(ex =~= data.subrange(skip, skip + count));
}

} // verus!
