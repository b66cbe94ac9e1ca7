use vstd::prelude::*;

use crate::carrier::{spec_data_bit, spec_embedded, spec_embedded_upto, spec_write_bit, Carrier};
use crate::crypto::{encrypt_message, hash_message, sha256_trunc8};
use crate::errors::StegoError;
use crate::header::{spec_header_fields_bytes, StegoHeader};
use crate::index::{IndexRecord, MessageIndexDB};
use crate::planner::{spec_avail, spec_can_place, spec_caps_of, spec_declared_capacity, spec_is_best_fit};
use crate::valid_bit_depth;
use vstd::slice::slice_to_vec;

verus! {

/// The full frame embedded for one message: the wire image of a header
/// carrying the payload length, a zero reserved offset, the plaintext
/// digest and the identifier, followed by the payload itself.
pub open spec fn spec_frame_bytes(payload: Seq<u8>, digest: Seq<u8>, message_id: u32) -> Seq<u8> {
    spec_header_fields_bytes(payload.len() as u64, 0u64, digest, message_id) + payload
}

/// Size in bytes of the frame built for one message: the 36-byte header
/// plus the payload, which carries a 28-byte overhead (nonce and tag) when
/// a passphrase is configured.
pub open spec fn spec_frame_len(encrypted: bool, msg: Seq<u8>) -> int {
    36 + msg.len() + if encrypted {
        28int
    } else {
        0int
    }
}

/// Bytes committed to the carrier named `path` by the first `k` placements
/// of a batch: the sum of the framed sizes of the messages whose records
/// name that carrier. Each record's offset is this sum at its own rank, so
/// frames in one carrier occupy consecutive, disjoint ranges.
pub open spec fn spec_committed_before(
    encrypted: bool,
    messages: Seq<Vec<u8>>,
    recs: Seq<IndexRecord>,
    path: Seq<char>,
    k: int,
) -> int
    decreases k,
{
    if k <= 0 {
        0
    } else {
        spec_committed_before(encrypted, messages, recs, path, k - 1) + if recs[k - 1].image_path@
            == path {
            spec_frame_len(encrypted, messages[k - 1]@)
        } else {
            0
        }
    }
}

/// The committed sum reads only the first `k` records.
proof fn lemma_committed_stable(
    encrypted: bool,
    messages: Seq<Vec<u8>>,
    recs1: Seq<IndexRecord>,
    recs2: Seq<IndexRecord>,
    path: Seq<char>,
    k: int,
)
    requires
        forall|m: int| 0 <= m < k ==> (#[trigger] recs1[m]).image_path@ == recs2[m].image_path@,
    ensures
        spec_committed_before(encrypted, messages, recs1, path, k) == spec_committed_before(
            encrypted,
            messages,
            recs2,
            path,
            k,
        ),
    decreases k,
{
    if k > 0 {
        lemma_committed_stable(encrypted, messages, recs1, recs2, path, k - 1);
    }
}

/// The encoding half of the codec: holds the configuration under which
/// messages are framed, placed and embedded.
#[derive(Debug)]
pub struct StegoEncoder {
    /// Channel bit depth used by the capacity formula and the bit plane.
    pub bits_per_channel: u8,
    /// Passphrase for payload encryption; `None` embeds plaintext.
    pub password: Option<String>,
    /// Location of the persistent index; carried for the caller that
    /// loads and flushes the index store.
    pub index_path: String,
}

impl StegoEncoder {
    /// The configuration is one the codec supports.
    pub open spec fn wf(self) -> bool {
        valid_bit_depth(self.bits_per_channel)
    }

    /// Builds an encoder, rejecting a bit depth outside 1..=3.
    pub fn new(bits_per_channel: u8, password: Option<String>, index_path: String) -> (r: Result<
        StegoEncoder,
        StegoError,
    >)
        ensures
            (r is Ok) == valid_bit_depth(bits_per_channel),
            r matches Ok(e) ==> e == (StegoEncoder { bits_per_channel, password, index_path })
                && e.wf(),
            r matches Err(e) ==> e == StegoError::ConfigError,
    {
        if 1 <= bits_per_channel && bits_per_channel <= 3 {
            Ok(StegoEncoder { bits_per_channel, password, index_path })
        } else {
            Err(StegoError::ConfigError)
        }
    }

    /// Writes every bit of `data`, most significant bit of each byte first,
    /// into consecutive channels of the grid starting at byte offset
    /// `offset_bytes` of the hidden stream. Each touched channel keeps all
    /// its bits except the designated one. A write that runs past the last
    /// row fails with a capacity error, leaving the channels before the
    /// edge written.
    pub fn write_data_from_offset(
        &self,
        carrier: &mut Carrier,
        data: &[u8],
        offset_bytes: usize,
    ) -> (r: Result<(), StegoError>)
        requires
            self.wf(),
        ensures
            final(carrier).path == old(carrier).path,
            final(carrier).width == old(carrier).width,
            final(carrier).height == old(carrier).height,
            final(carrier).pixels@ == spec_embedded(
                old(carrier).pixels@,
                data@,
                offset_bytes as int,
                self.bits_per_channel,
            ),
            old(carrier).wf() ==> final(carrier).wf(),
            (r is Ok) == (data@.len() == 0 || (offset_bytes as int) * 8 + 8 * data@.len() <= old(
                carrier,
            ).pixels@.len()),
            r matches Err(e) ==> e == (StegoError::CapacityError { required: data@.len() as usize }),
    {
        let ghost orig = carrier.pixels@;
        let ghost off = offset_bytes as int;
        let bpc = self.bits_per_channel;
        let len = carrier.pixels.len();
        if data.len() == 0 {
            proof {
                assert(carrier.pixels@ =~= spec_embedded(orig, data@, off, bpc));
            }
            return Ok(());
        }
        if offset_bytes > len / 8 {
            proof {
                vstd::arithmetic::div_mod::lemma_fundamental_div_mod(len as int, 8);
                assert(off * 8 > len);
                assert(carrier.pixels@ =~= spec_embedded(orig, data@, off, bpc));
            }
            return Err(StegoError::CapacityError { required: data.len() });
        }
        proof {
            vstd::arithmetic::div_mod::lemma_fundamental_div_mod(len as int, 8);
            assert(off * 8 <= len);
        }
        let mut chan: usize = offset_bytes * 8;
        let mut byte_idx: usize = 0;
        let mask: u8 = !(1u8 << (bpc - 1));
        while byte_idx < data.len()
            invariant
                 bpc == self.bits_per_channel,
                 1 <= bpc <= 3,
                 mask == !(1u8 << ((bpc - 1) as u8)),
                 byte_idx <= data@.len(),
                 0 < data@.len(),
                 carrier.pixels@.len() == len,
                 len == orig.len(),
                 orig == old(carrier).pixels@,
                 carrier.path == old(carrier).path,
                 carrier.width == old(carrier).width,
                 carrier.height == old(carrier).height,
                 off == offset_bytes as int,
                 chan == off * 8 + 8 * byte_idx,
                 chan <= len,
                 carrier.pixels@ == spec_embedded_upto(orig, data@, off, bpc, 8 * (byte_idx as int)),
            decreases data@.len() - byte_idx,
        {
            let byte = data[byte_idx];
            let mut b: usize = 0;
            while b < 8
                invariant
                     bpc == self.bits_per_channel,
                     1 <= bpc <= 3,
                     mask == !(1u8 << ((bpc - 1) as u8)),
                     byte_idx < data@.len(),
                     byte == data@[byte_idx as int],
                     b <= 8,
                     carrier.pixels@.len() == len,
                     len == orig.len(),
                     orig == old(carrier).pixels@,
                     carrier.path == old(carrier).path,
                     carrier.width == old(carrier).width,
                     carrier.height == old(carrier).height,
                     off == offset_bytes as int,
                     chan == off * 8 + 8 * byte_idx + b,
                     chan <= len,
                     carrier.pixels@ == spec_embedded_upto(
                         orig,
                         data@,
                         off,
                         bpc,
                         8 * (byte_idx as int) + b,
                     ),
                decreases 8 - b,
            {
                let ghost nbits = 8 * (byte_idx as int) + b;
                if chan >= len {
                    proof {
                        assert(nbits < 8 * data@.len());
                        assert(off * 8 + 8 * data@.len() > len);
                        assert(carrier.pixels@ =~= spec_embedded(orig, data@, off, bpc));
                        assert(carrier.pixels@ == spec_embedded(
                            old(carrier).pixels@,
                            data@,
                            offset_bytes as int,
                            bpc,
                        ));
                    }
                    return Err(StegoError::CapacityError { required: data.len() });
                }
                let shift: u8 = 7 - (b as u8);
                let bit: u8 = (byte >> shift) & 1;
                let updated: u8 = (carrier.pixels[chan] & mask) | (bit << (bpc - 1));
                proof {
                    assert((8 * (byte_idx as int) + b) / 8 == byte_idx && (8 * (byte_idx as int)
                        + b) % 8 == b) by (nonlinear_arith)
                        requires
                            0 <= b < 8,
                            0 <= byte_idx,
                    ;
                    assert(bit == spec_data_bit(data@, nbits));
                    assert(carrier.pixels@[chan as int] == orig[chan as int]);
                    assert(updated == spec_write_bit(orig[chan as int], bit, bpc));
                }
                carrier.pixels[chan] = updated;
                proof {
                    assert(carrier.pixels@ =~= spec_embedded_upto(orig, data@, off, bpc, nbits + 1));
                }
                chan += 1;
                b += 1;
            }
            byte_idx += 1;
        }
        proof {
            assert(carrier.pixels@ == spec_embedded(orig, data@, off, bpc));
        }
        Ok(())
    }

    /// Frames one prepared payload and commits it: asks the planner for the
    /// best-fit carrier, embeds the frame at that carrier's next free byte,
    /// advances the batch ledger, and registers the placement in the index.
    /// Everything here is a function of its arguments alone: encryption,
    /// hashing and the identifier draw happen at the caller. Placement
    /// fails when no carrier has declared room for the frame; embedding
    /// fails when the designated bit plane runs out before the declared
    /// room does; registration fails when the identifier is already taken.
    pub fn place_message(
        &self,
        digest: [u8; 8],
        payload: &Vec<u8>,
        message_id: u32,
        carriers: &mut Vec<Carrier>,
        capacities: &Vec<u64>,
        used: &mut Vec<u64>,
        index: &mut MessageIndexDB,
    ) -> (r: Result<(String, usize), StegoError>)
        requires
            self.wf(),
            old(index).wf(),
            old(carriers)@.len() == capacities@.len(),
            old(used)@.len() == capacities@.len(),
            forall|j: int| 0 <= j < capacities@.len() ==> #[trigger] old(used)@[j] <= capacities@[j],
            payload@.len() + 36 <= usize::MAX,
        ensures
            final(index).wf(),
            final(carriers)@.len() == old(carriers)@.len(),
            final(used)@.len() == old(used)@.len(),
            forall|j: int|
                0 <= j < capacities@.len() ==> #[trigger] final(used)@[j] <= capacities@[j],
            ({
                let fl = 36 + payload@.len() as int;
                let frame = spec_frame_bytes(payload@, digest@, message_id);
                let required = (36 + payload@.len()) as usize;
                if !spec_can_place(capacities@, old(used)@, fl) {
                    &&& r == Err::<(String, usize), StegoError>(
                        StegoError::CapacityError { required },
                    )
                    &&& final(carriers)@ == old(carriers)@
                    &&& final(used)@ == old(used)@
                    &&& final(index).rows() == old(index).rows()
                } else {
                    &&& exists|i: int| #[trigger] spec_is_best_fit(capacities@, old(used)@, fl, i)
                    &&& forall|i: int|
                        #[trigger] spec_is_best_fit(capacities@, old(used)@, fl, i) ==> {
                            let off = old(used)@[i] as int;
                            let fits = off * 8 + 8 * fl <= old(carriers)@[i].pixels@.len();
                            &&& final(carriers)@[i].path == old(carriers)@[i].path
                            &&& final(carriers)@[i].width == old(carriers)@[i].width
                            &&& final(carriers)@[i].height == old(carriers)@[i].height
                            &&& final(carriers)@[i].pixels@ == spec_embedded(
                                old(carriers)@[i].pixels@,
                                frame,
                                off,
                                self.bits_per_channel,
                            )
                            &&& forall|j: int|
                                0 <= j < old(carriers)@.len() && j != i ==> final(carriers)@[j]
                                    == old(carriers)@[j]
                            &&& if !fits {
                                &&& r == Err::<(String, usize), StegoError>(
                                    StegoError::CapacityError { required },
                                )
                                &&& final(used)@ == old(used)@
                                &&& final(index).rows() == old(index).rows()
                            } else if old(index).contains_id(message_id) {
                                &&& r == Err::<(String, usize), StegoError>(StegoError::IOError)
                                &&& final(used)@ == old(used)@.update(
                                    i,
                                    (old(used)@[i] + fl) as u64,
                                )
                                &&& final(index).rows() == old(index).rows()
                            } else {
                                &&& r matches Ok(loc) && loc.0@ == old(carriers)@[i].path@ && loc.1
                                    == old(used)@[i]
                                &&& final(used)@ == old(used)@.update(
                                    i,
                                    (old(used)@[i] + fl) as u64,
                                )
                                &&& final(index).rows().len() == old(index).rows().len() + 1
                                &&& final(index).rows().subrange(
                                    0,
                                    old(index).rows().len() as int,
                                ) == old(index).rows()
                                &&& final(index).rows().last().message_id == message_id
                                &&& final(index).rows().last().image_path@ == old(
                                    carriers,
                                )@[i].path@
                                &&& final(index).rows().last().offset_bytes == old(used)@[i]
                                &&& final(index).rows().last().message_hash@ == digest@
                            }
                        }
                }
            }),
            ({
                let fl = 36 + payload@.len() as int;
                (spec_can_place(capacities@, old(used)@, fl) && !old(index).contains_id(message_id)
                    && (forall|i: int|
                        #[trigger] spec_is_best_fit(capacities@, old(used)@, fl, i) ==> (old(
                            used,
                        )@[i] as int) * 8 + 8 * fl <= old(carriers)@[i].pixels@.len())) ==> r is Ok
            }),
    {
        let header = StegoHeader {
            total_length: payload.len() as u64,
            current_offset: 0,
            message_hash: digest,
            message_id,
        };
        let mut frame = header.to_bytes();
        frame.extend_from_slice(payload.as_slice());
        proof {
            assert(frame@ == spec_frame_bytes(payload@, digest@, message_id));
        }
        let ghost fl = 36 + payload@.len() as int;
        match crate::planner::choose_carrier(capacities, used, frame.len()) {
            None => Err(StegoError::CapacityError { required: frame.len() }),
            Some(i) => {
                let offset64: u64 = used[i];
                proof {
                    assert(spec_avail(capacities@, used@, i as int) >= fl);
                    assert(spec_is_best_fit(capacities@, old(used)@, fl, i as int));
                    assert forall|t: int|
                        #[trigger] spec_is_best_fit(capacities@, old(used)@, fl, t) implies t == i
                        as int by {
                        crate::planner::lemma_best_fit_unique(
                            capacities@,
                            old(used)@,
                            fl,
                            t,
                            i as int,
                        );
                    }
                }
                let plen = carriers[i].pixels.len();
                if offset64 > (usize::MAX as u64) {
                    proof {
                        assert(spec_is_best_fit(capacities@, old(used)@, fl, i as int));
                        assert(carriers@[i as int].pixels@.len() == plen);
                        assert(plen < offset64 as int);
                        assert((offset64 as int) * 8 >= offset64 as int);
                        assert(carriers@[i as int].pixels@ =~= spec_embedded(
                            carriers@[i as int].pixels@,
                            frame@,
                            offset64 as int,
                            self.bits_per_channel,
                        ));
                    }
                    return Err(StegoError::CapacityError { required: frame.len() });
                }
                let offset: usize = offset64 as usize;
                match self.write_data_from_offset(&mut carriers[i], frame.as_slice(), offset) {
                    Err(e) => {
                        proof {
                            assert(spec_is_best_fit(capacities@, old(used)@, fl, i as int));
                        }
                        return Err(e);
                    },
                    Ok(()) => {},
                }
                let new_used: u64 = offset64 + (frame.len() as u64);
                used[i] = new_used;
                let path_clone = carriers[i].path.clone();
                match index.register(message_id, path_clone.as_str(), offset, digest.as_slice()) {
                    Err(e) => Err(e),
                    Ok(()) => Ok((path_clone, offset)),
                }
            },
        }
    }
}

/// Relies on rand's `random` for the fresh 32-bit message identifier drawn
/// at encode time; nothing is assumed of the value.
#[verifier::external_body]
pub fn random_u32() -> u32 {
    rand::random::<u32>()
}

impl StegoEncoder {
    /// Encodes a batch: for each message in order, hashes the plaintext,
    /// encrypts it when a passphrase is configured, draws a random
    /// identifier, and commits the frame through `place_message`, returning
    /// one `(carrier identity, identifier)` pair per message. The batch
    /// aborts on the first failure; placements already committed stay
    /// committed. When the carrier set cannot take even the first message,
    /// nothing is committed at all.
    pub fn encode_messages(
        &self,
        messages: &Vec<Vec<u8>>,
        carriers: &mut Vec<Carrier>,
        index: &mut MessageIndexDB,
    ) -> (r: Result<Vec<(String, u32)>, StegoError>)
        requires
            self.wf(),
            old(index).wf(),
            forall|j: int| 0 <= j < old(carriers)@.len() ==> (#[trigger] old(carriers)@[j]).wf(),
            forall|a: int, b: int|
                0 <= a < b < old(carriers)@.len() ==> (#[trigger] old(carriers)@[a]).path@ != (
                #[trigger] old(carriers)@[b]).path@,
            forall|k: int|
                0 <= k < messages@.len() ==> (#[trigger] messages@[k])@.len() + 64 <= usize::MAX,
        ensures
            final(index).wf(),
            final(carriers)@.len() == old(carriers)@.len(),
            forall|j: int|
                0 <= j < old(carriers)@.len() ==> {
                    &&& (#[trigger] final(carriers)@[j]).path == old(carriers)@[j].path
                    &&& final(carriers)@[j].width == old(carriers)@[j].width
                    &&& final(carriers)@[j].height == old(carriers)@[j].height
                    &&& final(carriers)@[j].wf()
                },
            final(index).rows().len() >= old(index).rows().len(),
            final(index).rows().subrange(0, old(index).rows().len() as int) == old(index).rows(),
            old(carriers)@.len() == 0 ==> r == Err::<Vec<(String, u32)>, StegoError>(
                StegoError::IOError,
            ) && final(carriers)@ == old(carriers)@ && final(index).rows() == old(index).rows(),
            final(index).rows().len() <= old(index).rows().len() + messages@.len(),
            r matches Ok(res) ==> {
                &&& res@.len() == messages@.len()
                &&& final(index).rows().len() == old(index).rows().len() + messages@.len()
                &&& forall|k: int|
                    0 <= k < messages@.len() ==> {
                        let rec = #[trigger] final(index).rows()[old(index).rows().len() + k];
                        &&& rec.message_id == res@[k].1
                        &&& rec.image_path@ == res@[k].0@
                    }
            },
            (r is Err && messages@.len() > 0) ==> final(index).rows().len() < old(
                index,
            ).rows().len() + messages@.len(),
            // Success or failure alike, the new rows are exactly the
            // committed prefix of the batch: message k's digest, its offset
            // the running sum of the frames this call already placed in the
            // same carrier, and the whole frame within that carrier's
            // declared capacity.
            ({
                let added = final(index).rows().len() - old(index).rows().len();
                let new_recs = final(index).rows().subrange(
                    old(index).rows().len() as int,
                    final(index).rows().len() as int,
                );
                let caps = spec_caps_of(old(carriers)@, self.bits_per_channel);
                forall|k: int|
                    0 <= k < added ==> {
                        let rec = #[trigger] final(index).rows()[old(index).rows().len() + k];
                        &&& rec.message_hash@ == sha256_trunc8(messages@[k]@)
                        &&& rec.offset_bytes == spec_committed_before(
                            self.password is Some,
                            messages@,
                            new_recs,
                            rec.image_path@,
                            k,
                        )
                        &&& exists|j: int|
                            0 <= j < old(carriers)@.len() && (#[trigger] old(
                                carriers,
                            )@[j]).path@ == rec.image_path@ && rec.offset_bytes + spec_frame_len(
                                self.password is Some,
                                messages@[k]@,
                            ) <= caps[j]
                    }
            }),
            ({
                let caps = spec_caps_of(old(carriers)@, self.bits_per_channel);
                let zeros = Seq::new(old(carriers)@.len(), |j: int| 0u64);
                (self.password is None && messages@.len() > 0 && old(carriers)@.len() > 0
                    && !spec_can_place(caps, zeros, 36 + messages@[0]@.len() as int)) ==> {
                    &&& r == Err::<Vec<(String, u32)>, StegoError>(
                        StegoError::CapacityError {
                            required: (36 + messages@[0]@.len()) as usize,
                        },
                    )
                    &&& final(carriers)@ == old(carriers)@
                    &&& final(index).rows() == old(index).rows()
                }
            }),
            ({
                let caps = spec_caps_of(old(carriers)@, self.bits_per_channel);
                let zeros = Seq::new(old(carriers)@.len(), |j: int| 0u64);
                (self.password is Some && messages@.len() > 0 && old(carriers)@.len() > 0
                    && !spec_can_place(caps, zeros, 36 + messages@[0]@.len() as int + 28)) ==> {
                    &&& (r == Err::<Vec<(String, u32)>, StegoError>(
                        StegoError::CapacityError {
                            required: (36 + messages@[0]@.len() as int + 28) as usize,
                        },
                    ) || r == Err::<Vec<(String, u32)>, StegoError>(StegoError::CryptoError))
                    &&& final(carriers)@ == old(carriers)@
                    &&& final(index).rows() == old(index).rows()
                }
            }),
            ({
                let caps = spec_caps_of(old(carriers)@, self.bits_per_channel);
                let zeros = Seq::new(old(carriers)@.len(), |j: int| 0u64);
                (self.password is None && messages@.len() == 1 && old(index).rows().len() == 0
                    && self.bits_per_channel == 1 && spec_can_place(
                    caps,
                    zeros,
                    36 + messages@[0]@.len() as int,
                )) ==> r is Ok
            }),
    {
        let n = carriers.len();
        if n == 0 {
            return Err(StegoError::IOError);
        }
        let mut capacities: Vec<u64> = Vec::new();
        let mut j: usize = 0;
        while j < n
            invariant
                self.wf(),
                n == carriers@.len(),
                carriers@ == old(carriers)@,
                forall|t: int| 0 <= t < n ==> (#[trigger] carriers@[t]).wf(),
                j <= n,
                capacities@.len() == j,
                forall|t: int|
                    0 <= t < j ==> #[trigger] capacities@[t] == spec_declared_capacity(
                        carriers@[t].width as int,
                        carriers@[t].height as int,
                        self.bits_per_channel as int,
                    ),
            decreases n - j,
        {
            let c = crate::planner::declared_capacity(&carriers[j], self.bits_per_channel);
            capacities.push(c);
            j += 1;
        }
        proof {
            assert(capacities@ =~= spec_caps_of(old(carriers)@, self.bits_per_channel));
        }
        let mut used: Vec<u64> = vec![0u64; n];
        proof {
            assert(used@ =~= Seq::new(old(carriers)@.len(), |t: int| 0u64));
        }
        let mut results: Vec<(String, u32)> = Vec::new();
        let ghost caps_seq = capacities@;
        let ghost zeros = Seq::new(old(carriers)@.len(), |t: int| 0u64);
        let ghost old_rows_len = index.rows().len();
        let ghost enc_flag: bool = self.password is Some;
        let mut k: usize = 0;
        while k < messages.len()
            invariant
                self.wf(),
                index.wf(),
                n == carriers@.len(),
                n > 0,
                n == old(carriers)@.len(),
                enc_flag == (self.password is Some),
                capacities@ == caps_seq,
                caps_seq == spec_caps_of(old(carriers)@, self.bits_per_channel),
                forall|t: int|
                    0 <= t < n ==> #[trigger] capacities@[t] == spec_declared_capacity(
                        old(carriers)@[t].width as int,
                        old(carriers)@[t].height as int,
                        self.bits_per_channel as int,
                    ),
                zeros == Seq::new(old(carriers)@.len(), |t: int| 0u64),
                forall|a: int, b: int|
                    0 <= a < b < n ==> (#[trigger] old(carriers)@[a]).path@ != (#[trigger] old(
                        carriers,
                    )@[b]).path@,
                forall|t: int|
                    0 <= t < n ==> {
                        &&& (#[trigger] carriers@[t]).path == old(carriers)@[t].path
                        &&& carriers@[t].width == old(carriers)@[t].width
                        &&& carriers@[t].height == old(carriers)@[t].height
                        &&& carriers@[t].wf()
                    },
                used@.len() == n,
                capacities@.len() == n,
                forall|t: int| 0 <= t < n ==> #[trigger] used@[t] <= capacities@[t],
                k <= messages@.len(),
                forall|m: int|
                    0 <= m < messages@.len() ==> (#[trigger] messages@[m])@.len() + 64
                        <= usize::MAX,
                results@.len() == k,
                old_rows_len == old(index).rows().len(),
                index.rows().len() == old_rows_len + k,
                index.rows().subrange(0, old_rows_len as int) == old(index).rows(),
                forall|t: int|
                    0 <= t < n ==> #[trigger] used@[t] == spec_committed_before(
                        enc_flag,
                        messages@,
                        index.rows().subrange(old_rows_len as int, (old_rows_len + k) as int),
                        old(carriers)@[t].path@,
                        k as int,
                    ),
                forall|m: int|
                    0 <= m < k ==> {
                        let rec = #[trigger] index.rows()[old_rows_len + m];
                        &&& rec.message_id == results@[m].1
                        &&& rec.image_path@ == results@[m].0@
                        &&& rec.message_hash@ == sha256_trunc8(messages@[m]@)
                        &&& rec.offset_bytes == spec_committed_before(
                            enc_flag,
                            messages@,
                            index.rows().subrange(old_rows_len as int, (old_rows_len + k) as int),
                            rec.image_path@,
                            m,
                        )
                        &&& exists|jj: int|
                            0 <= jj < n && (#[trigger] old(carriers)@[jj]).path@
                                == rec.image_path@ && rec.offset_bytes + spec_frame_len(
                                enc_flag,
                                messages@[m]@,
                            ) <= caps_seq[jj]
                    },
                k == 0 ==> used@ == zeros && index.rows() == old(index).rows() && carriers@ == old(
                    carriers,
                )@,
                k > 0 && messages@.len() > 0 ==> spec_can_place(
                    caps_seq,
                    zeros,
                    spec_frame_len(enc_flag, messages@[0]@),
                ),
            decreases messages@.len() - k,
        {
            let msg_slice = messages[k].as_slice();
            let digest = hash_message(msg_slice);
            let payload: Vec<u8> = match &self.password {
                Some(pw) => match encrypt_message(msg_slice, pw.as_str()) {
                    Ok(c) => c,
                    Err(e) => {
                        return Err(e);
                    },
                },
                None => slice_to_vec(msg_slice),
            };
            let message_id = random_u32();
            let ghost fl = 36 + payload@.len() as int;
            proof {
                assert(fl == spec_frame_len(enc_flag, messages@[k as int]@));
            }
            let ghost prev_rows = index.rows();
            let ghost prev_used = used@;
            let ghost prev_carriers = carriers@;
            let ghost prev_index = *index;
            match self.place_message(
                digest,
                &payload,
                message_id,
                carriers,
                &capacities,
                &mut used,
                index,
            ) {
                Ok(placed) => {
                    results.push((placed.0, message_id));
                    proof {
                        let new_rows = index.rows();
                        assert(new_rows.subrange(0, prev_rows.len() as int) == prev_rows);
                        assert forall|m: int| 0 <= m < k implies (#[trigger] new_rows[old_rows_len
                            + m]) == prev_rows[old_rows_len + m] by {
                            assert(new_rows.subrange(0, prev_rows.len() as int)[old_rows_len + m]
                                == new_rows[old_rows_len + m]);
                        }
                        assert(new_rows[old_rows_len + k] == new_rows.last());
                        assert(new_rows.subrange(0, old_rows_len as int) =~= prev_rows.subrange(
                            0,
                            old_rows_len as int,
                        ));
                        assert(spec_can_place(capacities@, prev_used, fl));
                        let gi = choose|t: int| spec_is_best_fit(capacities@, prev_used, fl, t);
                        assert(spec_is_best_fit(capacities@, prev_used, fl, gi));
                        assert(used@ == prev_used.update(gi, (prev_used[gi] + fl) as u64));
                        assert(new_rows.last().image_path@ == prev_carriers[gi].path@);
                        assert(new_rows.last().offset_bytes == prev_used[gi]);
                        assert(new_rows.last().message_hash@ == digest@);
                        assert(prev_carriers[gi].path@ == old(carriers)@[gi].path@);
                        let sub_k = prev_rows.subrange(
                            old_rows_len as int,
                            (old_rows_len + k) as int,
                        );
                        let sub_k1 = new_rows.subrange(
                            old_rows_len as int,
                            (old_rows_len + k + 1) as int,
                        );
                        assert forall|m: int| 0 <= m < k implies (#[trigger] sub_k1[m])
                            == sub_k[m] by {
                            assert(sub_k1[m] == new_rows[old_rows_len + m]);
                            assert(sub_k[m] == prev_rows[old_rows_len + m]);
                        }
                        assert(sub_k1[k as int] == new_rows.last());
                        assert(prev_used[gi] + fl <= capacities@[gi]);
                        assert forall|t: int| 0 <= t < n implies #[trigger] used@[t]
                            == spec_committed_before(
                            enc_flag,
                            messages@,
                            sub_k1,
                            old(carriers)@[t].path@,
                            (k + 1) as int,
                        ) by {
                            lemma_committed_stable(
                                enc_flag,
                                messages@,
                                sub_k,
                                sub_k1,
                                old(carriers)@[t].path@,
                                k as int,
                            );
                            if t != gi {
                                if t < gi {
                                    assert(old(carriers)@[t].path@ != old(carriers)@[gi].path@);
                                } else {
                                    assert(old(carriers)@[gi].path@ != old(carriers)@[t].path@);
                                }
                                assert(sub_k1[k as int].image_path@ != old(carriers)@[t].path@);
                                assert(used@[t] == prev_used[t]);
                            }
                        }
                        assert forall|m: int| 0 <= m < k + 1 implies {
                            let rec = #[trigger] new_rows[old_rows_len + m];
                            rec.offset_bytes == spec_committed_before(
                                enc_flag,
                                messages@,
                                sub_k1,
                                rec.image_path@,
                                m,
                            )
                        } by {
                            let rec = new_rows[old_rows_len + m];
                            if m < k {
                                assert(rec == prev_rows[old_rows_len + m]);
                                lemma_committed_stable(
                                    enc_flag,
                                    messages@,
                                    sub_k,
                                    sub_k1,
                                    rec.image_path@,
                                    m,
                                );
                            } else {
                                assert(rec == new_rows.last());
                                lemma_committed_stable(
                                    enc_flag,
                                    messages@,
                                    sub_k,
                                    sub_k1,
                                    rec.image_path@,
                                    k as int,
                                );
                            }
                        }
                        assert(0 <= gi < n && old(carriers)@[gi].path@
                            == new_rows.last().image_path@ && new_rows.last().offset_bytes
                            + spec_frame_len(enc_flag, messages@[k as int]@) <= caps_seq[gi]);
                    }
                },
                Err(e) => {
                    proof {
                        if k > 0 {
                            assert(spec_can_place(
                                caps_seq,
                                zeros,
                                spec_frame_len(enc_flag, messages@[0]@),
                            ));
                        } else {
                            assert(prev_used == zeros);
                            if self.password is None && messages@.len() == 1
                                && old(index).rows().len() == 0 && self.bits_per_channel == 1
                                && spec_can_place(
                                caps_seq,
                                zeros,
                                36 + messages@[0]@.len() as int,
                            ) {
                                assert(fl == 36 + messages@[0]@.len() as int);
                                assert(spec_can_place(capacities@, prev_used, fl));
                                assert(prev_index.rows() == prev_rows);
                                assert(prev_rows == old(index).rows());
                                assert(!prev_index.contains_id(message_id));
                                assert forall|t: int|
                                    #[trigger] spec_is_best_fit(
                                        capacities@,
                                        prev_used,
                                        fl,
                                        t,
                                    ) implies (prev_used[t] as int) * 8 + 8 * fl
                                    <= prev_carriers[t].pixels@.len() by {
                                    assert(prev_used[t] == 0);
                                    assert(capacities@[t] >= fl);
                                    let w = old(carriers)@[t].width as int;
                                    let h = old(carriers)@[t].height as int;
                                    assert(capacities@[t] == spec_declared_capacity(w, h, 1));
                                    assert(w * h * 3 * 1 == 3 * (w * h) && 3 * w * h == 3 * (w
                                        * h)) by (nonlinear_arith);
                                    vstd::arithmetic::div_mod::lemma_fundamental_div_mod(
                                        3 * (w * h),
                                        8,
                                    );
                                    assert(prev_carriers[t].pixels@.len() == 3 * (w * h));
                                }
                                assert(false);
                            }
                        }
                    }
                    return Err(e);
                },
            }
            k += 1;
        }
        Ok(results)
    }
}

} // verus!
