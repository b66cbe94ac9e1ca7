use vstd::prelude::*;

use crate::carrier::{
    lemma_extracted_embedded, spec_embedded, spec_extract_byte, spec_extracted_bytes, Carrier,
};
use crate::crypto::{decrypt_message, hash_message, sha256_trunc8, spec_decrypt};
use crate::encoder::spec_frame_bytes;
use crate::errors::StegoError;
use crate::header::{
    lemma_header_fields_round_trip, spec_header_fault, spec_header_fields_bytes,
    spec_u64_from_be_bytes, StegoHeader, HEADER_SIZE,
};
use crate::index::{IndexRecord, MessageIndexDB};
use crate::valid_bit_depth;

verus! {

broadcast use vstd::array::group_array_axioms;

/// The configured passphrase as a sequence of characters, if any.
pub open spec fn spec_password(password: Option<String>) -> Option<Seq<char>> {
    match password {
        None => None,
        Some(p) => Some(p@),
    }
}

/// How many whole bytes the grid can still yield when extraction starts at
/// byte offset `offset` of the hidden stream.
pub open spec fn spec_avail_bytes(pixels: Seq<u8>, offset: int) -> int {
    if offset * 8 <= pixels.len() {
        (pixels.len() - offset * 8) / 8
    } else {
        0
    }
}

/// What scanning a grid from byte offset `offset` yields under a given
/// configuration: the header is assembled from the first 36 extracted
/// bytes and must parse; its payload length says how much more to
/// extract; the payload is decrypted when a passphrase is configured; and
/// the digest of the plaintext must match the digest the header carries.
/// A grid exhausted before a full frame, or a digest that never matches,
/// is an integrity failure; tampered content is never returned.
pub open spec fn spec_decode(
    pixels: Seq<u8>,
    bits_per_channel: u8,
    offset: int,
    password: Option<Seq<char>>,
) -> Result<Seq<u8>, StegoError> {
    let avail = spec_avail_bytes(pixels, offset);
    if avail < HEADER_SIZE {
        Err(StegoError::IntegrityError)
    } else {
        let hdr = spec_extracted_bytes(pixels, bits_per_channel, offset, HEADER_SIZE as int);
        match spec_header_fault(hdr) {
            Some(fault) => Err(StegoError::FormatError { fault }),
            None => {
                let total = spec_u64_from_be_bytes(hdr.subrange(5, 13)) as int;
                if avail < HEADER_SIZE + total {
                    Err(StegoError::IntegrityError)
                } else {
                    let payload = spec_extracted_bytes(
                        pixels,
                        bits_per_channel,
                        offset + HEADER_SIZE,
                        total,
                    );
                    let plain = match password {
                        None => Some(payload),
                        Some(p) => spec_decrypt(payload, p),
                    };
                    match plain {
                        None => Err(StegoError::CryptoError),
                        Some(m) => if sha256_trunc8(m) == hdr.subrange(21, 29) {
                            Ok(m)
                        } else {
                            Err(StegoError::IntegrityError)
                        },
                    }
                }
            },
        }
    }
}

/// Reads `count` consecutive hidden bytes from the grid starting at byte
/// offset `offset_bytes`, eight designated bits per byte, most significant
/// first; `None` when the grid ends before the last whole byte.
pub fn extract_bytes(
    carrier: &Carrier,
    bits_per_channel: u8,
    offset_bytes: usize,
    count: usize,
) -> (r: Option<Vec<u8>>)
    requires
        valid_bit_depth(bits_per_channel),
    ensures
        (r is Some) == ((offset_bytes as int) * 8 + 8 * (count as int) <= carrier.pixels@.len()),
        r matches Some(v) ==> v@ == spec_extracted_bytes(
            carrier.pixels@,
            bits_per_channel,
            offset_bytes as int,
            count as int,
        ),
{
    let len = carrier.pixels.len();
    if offset_bytes > len / 8 {
        proof {
            vstd::arithmetic::div_mod::lemma_fundamental_div_mod(len as int, 8);
        }
        return None;
    }
    proof {
        vstd::arithmetic::div_mod::lemma_fundamental_div_mod(len as int, 8);
    }
    let start: usize = offset_bytes * 8;
    if count > (len - start) / 8 {
        proof {
            vstd::arithmetic::div_mod::lemma_fundamental_div_mod((len - start) as int, 8);
        }
        return None;
    }
    proof {
        vstd::arithmetic::div_mod::lemma_fundamental_div_mod((len - start) as int, 8);
    }
    let mut out: Vec<u8> = Vec::new();
    let mut i: usize = 0;
    let mut chan: usize = start;
    let shift: u8 = bits_per_channel - 1;
    while i < count
        invariant
            1 <= bits_per_channel <= 3,
            shift == (bits_per_channel - 1) as u8,
            len == carrier.pixels@.len(),
            start == (offset_bytes as int) * 8,
            chan == start + 8 * i,
            i <= count,
            start + 8 * (count as int) <= len,
            out@.len() == i,
            forall|m: int|
                0 <= m < i ==> #[trigger] out@[m] == spec_extract_byte(
                    carrier.pixels@,
                    bits_per_channel,
                    start + 8 * m,
                ),
        decreases count - i,
    {
        let b0 = (carrier.pixels[chan] >> shift) & 1;
        let b1 = (carrier.pixels[chan + 1] >> shift) & 1;
        let b2 = (carrier.pixels[chan + 2] >> shift) & 1;
        let b3 = (carrier.pixels[chan + 3] >> shift) & 1;
        let b4 = (carrier.pixels[chan + 4] >> shift) & 1;
        let b5 = (carrier.pixels[chan + 5] >> shift) & 1;
        let b6 = (carrier.pixels[chan + 6] >> shift) & 1;
        let b7 = (carrier.pixels[chan + 7] >> shift) & 1;
        let byte = (b0 << 7u8) | (b1 << 6u8) | (b2 << 5u8) | (b3 << 4u8) | (b4 << 3u8) | (b5
            << 2u8) | (b6 << 1u8) | b7;
        proof {
            assert(byte == spec_extract_byte(
                carrier.pixels@,
                bits_per_channel,
                start + 8 * (i as int),
            ));
        }
        out.push(byte);
        chan += 8;
        i += 1;
    }
    proof {
        assert(out@ =~= spec_extracted_bytes(
            carrier.pixels@,
            bits_per_channel,
            offset_bytes as int,
            count as int,
        ));
    }
    Some(out)
}

/// The decoding half of the codec: holds the configuration under which
/// frames are extracted, parsed and verified.
#[derive(Debug)]
pub struct StegoDecoder {
    /// Channel bit depth; must match the one used at encode time.
    pub bits_per_channel: u8,
    /// Passphrase for payload decryption; `None` expects plaintext.
    pub password: Option<String>,
    /// Location of the persistent index; carried for the caller that
    /// loads the index store.
    pub index_path: String,
}

impl StegoDecoder {
    /// The configuration is one the codec supports.
    pub open spec fn wf(self) -> bool {
        valid_bit_depth(self.bits_per_channel)
    }

    /// Builds a decoder, rejecting a bit depth outside 1..=3.
    pub fn new(bits_per_channel: u8, password: Option<String>, index_path: String) -> (r: Result<
        StegoDecoder,
        StegoError,
    >)
        ensures
            (r is Ok) == valid_bit_depth(bits_per_channel),
            r matches Ok(d) ==> d == (StegoDecoder { bits_per_channel, password, index_path })
                && d.wf(),
            r matches Err(e) ==> e == StegoError::ConfigError,
    {
        if 1 <= bits_per_channel && bits_per_channel <= 3 {
            Ok(StegoDecoder { bits_per_channel, password, index_path })
        } else {
            Err(StegoError::ConfigError)
        }
    }

    /// Scans one carrier from a byte offset and returns the recovered
    /// plaintext, exactly as `spec_decode` says.
    pub fn decode_message_from_location(&self, carrier: &Carrier, offset_bytes: usize) -> (r:
        Result<Vec<u8>, StegoError>)
        requires
            self.wf(),
        ensures
            ({
                let s = spec_decode(
                    carrier.pixels@,
                    self.bits_per_channel,
                    offset_bytes as int,
                    spec_password(self.password),
                );
                match r {
                    Ok(m) => s matches Ok(sm) && m@ == sm,
                    Err(e) => s matches Err(se) && e == se,
                }
            }),
    {
        let len = carrier.pixels.len();
        let avail: usize = if offset_bytes > len / 8 {
            proof {
                vstd::arithmetic::div_mod::lemma_fundamental_div_mod(len as int, 8);
            }
            0
        } else {
            proof {
                vstd::arithmetic::div_mod::lemma_fundamental_div_mod(len as int, 8);
                vstd::arithmetic::div_mod::lemma_fundamental_div_mod(
                    (len - (offset_bytes as int) * 8) as int,
                    8,
                );
            }
            (len - offset_bytes * 8) / 8
        };
        proof {
            assert(avail == spec_avail_bytes(carrier.pixels@, offset_bytes as int));
        }
        if avail < HEADER_SIZE {
            return Err(StegoError::IntegrityError);
        }
        let header_bytes = match extract_bytes(
            carrier,
            self.bits_per_channel,
            offset_bytes,
            HEADER_SIZE,
        ) {
            Some(v) => v,
            None => {
                proof {
                    vstd::arithmetic::div_mod::lemma_fundamental_div_mod(
                        (len - (offset_bytes as int) * 8) as int,
                        8,
                    );
                    assert(false);
                }
                return Err(StegoError::IntegrityError);
            },
        };
        let header = match StegoHeader::from_bytes(header_bytes.as_slice()) {
            Ok(h) => h,
            Err(fault) => {
                return Err(StegoError::FormatError { fault });
            },
        };
        if (avail as u128) < (HEADER_SIZE as u128) + (header.total_length as u128) {
            return Err(StegoError::IntegrityError);
        }
        let total: usize = header.total_length as usize;
        proof {
            assert(8 * (offset_bytes as int) <= len);
            assert(offset_bytes + HEADER_SIZE <= usize::MAX) by {
                assert(8 * (offset_bytes as int) <= usize::MAX);
            }
        }
        let payload = match extract_bytes(
            carrier,
            self.bits_per_channel,
            offset_bytes + HEADER_SIZE,
            total,
        ) {
            Some(v) => v,
            None => {
                proof {
                    vstd::arithmetic::div_mod::lemma_fundamental_div_mod(
                        (len - (offset_bytes as int) * 8) as int,
                        8,
                    );
                    assert(false);
                }
                return Err(StegoError::IntegrityError);
            },
        };
        let plain: Vec<u8> = match &self.password {
            None => payload,
            Some(pw) => match decrypt_message(payload.as_slice(), pw.as_str()) {
                Ok(m) => m,
                Err(e) => {
                    return Err(e);
                },
            },
        };
        let digest = hash_message(plain.as_slice());
        let matches_digest = digest[0] == header.message_hash[0] && digest[1]
            == header.message_hash[1] && digest[2] == header.message_hash[2] && digest[3]
            == header.message_hash[3] && digest[4] == header.message_hash[4] && digest[5]
            == header.message_hash[5] && digest[6] == header.message_hash[6] && digest[7]
            == header.message_hash[7];
        proof {
            if matches_digest {
                assert(digest@ =~= header.message_hash@);
            } else {
                assert(digest@ != header.message_hash@);
            }
        }
        if matches_digest {
            Ok(plain)
        } else {
            Err(StegoError::IntegrityError)
        }
    }

    /// Decodes the message registered under `message_id`: looks the
    /// identifier up in the index, opens the recorded carrier among those
    /// given, and scans from the recorded offset. An identifier never
    /// registered is a not-found failure; a recorded carrier not among
    /// those given is a read failure.
    pub fn decode_message(
        &self,
        message_id: u32,
        index: &MessageIndexDB,
        carriers: &Vec<Carrier>,
    ) -> (r: Result<Vec<u8>, StegoError>)
        requires
            self.wf(),
            index.wf(),
            forall|a: int, b: int|
                0 <= a < b < carriers@.len() ==> (#[trigger] carriers@[a]).path@ != (
                #[trigger] carriers@[b]).path@,
        ensures
            !index.contains_id(message_id) ==> r == Err::<Vec<u8>, StegoError>(
                StegoError::NotFoundError { message_id },
            ),
            index.contains_id(message_id) ==> exists|i: int|
                {
                    &&& 0 <= i < index.rows().len()
                    &&& (#[trigger] index.rows()[i]).message_id == message_id
                    &&& ({
                        let s = spec_located_decode(
                            self.bits_per_channel,
                            spec_password(self.password),
                            carriers@,
                            index.rows()[i].image_path@,
                            index.rows()[i].offset_bytes as int,
                        );
                        match r {
                            Ok(m) => s matches Ok(sm) && m@ == sm,
                            Err(e) => s matches Err(se) && e == se,
                        }
                    })
                },
    {
        match index.get_message_location(message_id) {
            None => Err(StegoError::NotFoundError { message_id }),
            Some(loc) => {
                let (path, offset) = loc;
                let ghost ri = choose|i: int|
                    0 <= i < index.rows().len() && (#[trigger] index.rows()[i]).message_id
                        == message_id && path@ == index.rows()[i].image_path@ && offset
                        == index.rows()[i].offset_bytes;
                match find_carrier(carriers, &path) {
                    None => {
                        proof {
                            assert(index.rows()[ri].message_id == message_id);
                        }
                        Err(StegoError::IOError)
                    },
                    Some(c) => {
                        let r = self.decode_message_from_location(&carriers[c], offset);
                        proof {
                            assert(index.rows()[ri].message_id == message_id);
                            assert(spec_carrier_with_path(carriers@, path@) == Some(c as int));
                        }
                        r
                    },
                }
            },
        }
    }

    /// Decodes every registered message independently, in index order,
    /// returning the subset that decodes successfully; one record's
    /// failure is skipped, never propagated.
    pub fn decode_all_messages(&self, index: &MessageIndexDB, carriers: &Vec<Carrier>) -> (r: Vec<
        Vec<u8>,
    >)
        requires
            self.wf(),
            forall|a: int, b: int|
                0 <= a < b < carriers@.len() ==> (#[trigger] carriers@[a]).path@ != (
                #[trigger] carriers@[b]).path@,
        ensures
            ({
                let s = spec_decode_all(
                    self.bits_per_channel,
                    spec_password(self.password),
                    carriers@,
                    index.rows(),
                );
                r@.len() == s.len() && forall|k: int|
                    0 <= k < s.len() ==> (#[trigger] r@[k])@ == s[k]
            }),
    {
        let all = index.get_all_messages();
        let mut out: Vec<Vec<u8>> = Vec::new();
        let mut i: usize = 0;
        while i < all.len()
            invariant
                self.wf(),
                forall|a: int, b: int|
                    0 <= a < b < carriers@.len() ==> (#[trigger] carriers@[a]).path@ != (
                    #[trigger] carriers@[b]).path@,
                all@.len() == index.rows().len(),
                forall|t: int|
                    0 <= t < index.rows().len() ==> {
                        &&& (#[trigger] all@[t]).0 == index.rows()[t].message_id
                        &&& all@[t].1@ == index.rows()[t].image_path@
                        &&& all@[t].2 == index.rows()[t].offset_bytes
                    },
                i <= all@.len(),
                ({
                    let s = spec_decode_all(
                        self.bits_per_channel,
                        spec_password(self.password),
                        carriers@,
                        index.rows().subrange(0, i as int),
                    );
                    out@.len() == s.len() && forall|k: int|
                        0 <= k < s.len() ==> (#[trigger] out@[k])@ == s[k]
                }),
            decreases all@.len() - i,
        {
            let entry_path = &all[i].1;
            let entry_offset = all[i].2;
            let dec: Result<Vec<u8>, StegoError> = match find_carrier(carriers, entry_path) {
                None => Err(StegoError::IOError),
                Some(c) => self.decode_message_from_location(&carriers[c], entry_offset),
            };
            proof {
                let rows = index.rows();
                let sub1 = rows.subrange(0, i + 1);
                assert(sub1.drop_last() =~= rows.subrange(0, i as int));
                assert(sub1.last() == rows[i as int]);
            }
            match dec {
                Ok(m) => {
                    out.push(m);
                },
                Err(_) => {},
            }
            i += 1;
        }
        proof {
            assert(index.rows().subrange(0, all@.len() as int) =~= index.rows());
        }
        out
    }
}

/// The carrier, if any, whose identity matches `path`; with distinct
/// carrier identities the witness is unique.
pub open spec fn spec_carrier_with_path(carriers: Seq<Carrier>, path: Seq<char>) -> Option<int> {
    if exists|c: int| 0 <= c < carriers.len() && (#[trigger] carriers[c]).path@ == path {
        Some(choose|c: int| 0 <= c < carriers.len() && (#[trigger] carriers[c]).path@ == path)
    } else {
        None
    }
}

/// What decoding one located record yields: a recorded carrier that is not
/// among those given is a read failure; otherwise the scan at the recorded
/// offset decides.
pub open spec fn spec_located_decode(
    bits_per_channel: u8,
    password: Option<Seq<char>>,
    carriers: Seq<Carrier>,
    path: Seq<char>,
    offset: int,
) -> Result<Seq<u8>, StegoError> {
    match spec_carrier_with_path(carriers, path) {
        None => Err(StegoError::IOError),
        Some(c) => spec_decode(carriers[c].pixels@, bits_per_channel, offset, password),
    }
}

/// What decoding a whole index yields: each record in order, keeping the
/// messages that decode and skipping the records that fail.
pub open spec fn spec_decode_all(
    bits_per_channel: u8,
    password: Option<Seq<char>>,
    carriers: Seq<Carrier>,
    rows: Seq<IndexRecord>,
) -> Seq<Seq<u8>>
    decreases rows.len(),
{
    if rows.len() == 0 {
        Seq::empty()
    } else {
        let prefix = spec_decode_all(bits_per_channel, password, carriers, rows.drop_last());
        match spec_located_decode(
            bits_per_channel,
            password,
            carriers,
            rows.last().image_path@,
            rows.last().offset_bytes as int,
        ) {
            Ok(m) => prefix.push(m),
            Err(_) => prefix,
        }
    }
}

/// Finds the carrier carrying this identity, if any.
fn find_carrier(carriers: &Vec<Carrier>, path: &String) -> (r: Option<usize>)
    requires
        forall|a: int, b: int|
            0 <= a < b < carriers@.len() ==> (#[trigger] carriers@[a]).path@ != (
            #[trigger] carriers@[b]).path@,
    ensures
        match r {
            Some(c) => spec_carrier_with_path(carriers@, path@) == Some(c as int),
            None => spec_carrier_with_path(carriers@, path@) is None,
        },
{
    let n = carriers.len();
    let mut c: usize = 0;
    while c < n
        invariant
            n == carriers@.len(),
            c <= n,
            forall|a: int, b: int|
                0 <= a < b < carriers@.len() ==> (#[trigger] carriers@[a]).path@ != (
                #[trigger] carriers@[b]).path@,
            forall|t: int| 0 <= t < c ==> (#[trigger] carriers@[t]).path@ != path@,
        decreases n - c,
    {
        if carriers[c].path == *path {
            proof {
                assert(carriers@[c as int].path@ == path@);
                let c2 = choose|t: int|
                    0 <= t < carriers@.len() && (#[trigger] carriers@[t]).path@ == path@;
                if c2 != c {
                    assert(carriers@[if c2 < c {
                        c2
                    } else {
                        c as int
                    }].path@ != carriers@[if c2 < c {
                        c as int
                    } else {
                        c2
                    }].path@);
                    assert(false);
                }
            }
            return Some(c);
        }
        c += 1;
    }
    None
}

/// Tampered content is never returned: whenever the scan yields a message,
/// the digest of that message is exactly the digest stored in the header
/// it was extracted with; a candidate whose digests disagree is rejected.
pub proof fn lemma_integrity(
    pixels: Seq<u8>,
    bits_per_channel: u8,
    offset: int,
    password: Option<Seq<char>>,
    m: Seq<u8>,
)
    requires
        spec_decode(pixels, bits_per_channel, offset, password) == Ok::<Seq<u8>, StegoError>(m),
    ensures
        sha256_trunc8(m) == spec_extracted_bytes(
            pixels,
            bits_per_channel,
            offset,
            HEADER_SIZE as int,
        ).subrange(21, 29),
{
}

/// A grid whose extracted bytes spell a well-formed frame for `m` scans
/// back to exactly `m`.
proof fn lemma_decode_assembled(
    emb: Seq<u8>,
    bits_per_channel: u8,
    offset: int,
    payload: Seq<u8>,
    m: Seq<u8>,
    message_id: u32,
    password: Option<Seq<char>>,
)
    requires
        payload.len() <= u64::MAX,
        sha256_trunc8(m).len() == 8,
        spec_avail_bytes(emb, offset) >= 36 + payload.len(),
        spec_extracted_bytes(emb, bits_per_channel, offset, 36) == spec_header_fields_bytes(
            payload.len() as u64,
            0u64,
            sha256_trunc8(m),
            message_id,
        ),
        spec_extracted_bytes(emb, bits_per_channel, offset + 36, payload.len() as int) == payload,
        match password {
            None => payload == m,
            Some(p) => spec_decrypt(payload, p) == Some(m),
        },
    ensures
        spec_decode(emb, bits_per_channel, offset, password) == Ok::<Seq<u8>, StegoError>(m),
{
    lemma_header_fields_round_trip(payload.len() as u64, 0u64, sha256_trunc8(m), message_id);
}

/// Round trip: a frame built for message `m` — a header carrying the
/// payload length and the digest of `m`, then a payload that is `m` (or
/// decrypts to `m` under the configured passphrase) — embedded whole into
/// a grid, is scanned back as exactly `m` under the same configuration.
#[verifier::rlimit(100)]
pub proof fn lemma_round_trip(
    pixels: Seq<u8>,
    bits_per_channel: u8,
    offset: int,
    payload: Seq<u8>,
    m: Seq<u8>,
    message_id: u32,
    password: Option<Seq<char>>,
)
    requires
        1 <= bits_per_channel <= 3,
        0 <= offset,
        payload.len() <= u64::MAX,
        sha256_trunc8(m).len() == 8,
        match password {
            None => payload == m,
            Some(p) => spec_decrypt(payload, p) == Some(m),
        },
        offset * 8 + 8 * (36 + payload.len()) <= pixels.len(),
    ensures
        spec_decode(
            spec_embedded(
                pixels,
                spec_frame_bytes(payload, sha256_trunc8(m), message_id),
                offset,
                bits_per_channel,
            ),
            bits_per_channel,
            offset,
            password,
        ) == Ok::<Seq<u8>, StegoError>(m),
{
    let digest = sha256_trunc8(m);
    let tl = payload.len() as u64;
    let header = spec_header_fields_bytes(tl, 0u64, digest, message_id);
    let frame = spec_frame_bytes(payload, digest, message_id);
    let emb = spec_embedded(pixels, frame, offset, bits_per_channel);
    let hdr = spec_extracted_bytes(emb, bits_per_channel, offset, 36);
    let pl = spec_extracted_bytes(emb, bits_per_channel, offset + 36, payload.len() as int);
    assert(header.len() == 36 && frame.len() == 36 + payload.len()) by {
        lemma_header_fields_round_trip(tl, 0u64, digest, message_id);
    }
    assert(hdr == header) by {
        lemma_extracted_embedded(pixels, frame, offset, bits_per_channel, 0, 36);
        assert(frame.subrange(0, 36) =~= header);
    }
    assert(pl == payload) by {
        lemma_extracted_embedded(pixels, frame, offset, bits_per_channel, 36, payload.len() as int);
        assert(frame.subrange(36, 36 + payload.len() as int) =~= payload);
    }
    assert(spec_avail_bytes(emb, offset) >= 36 + payload.len()) by {
        assert(emb.len() == pixels.len());
        vstd::arithmetic::div_mod::lemma_fundamental_div_mod((pixels.len() - offset * 8) as int, 8);
    }
    lemma_decode_assembled(emb, bits_per_channel, offset, payload, m, message_id, password);
}

} // verus!
