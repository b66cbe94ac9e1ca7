use vstd::prelude::*;

use crate::carrier::Carrier;
use crate::valid_bit_depth;

verus! {

/// Declared capacity in bytes of a carrier grid at a given channel bit
/// depth: `width * height * 3 * bits_per_channel / 8`. The formula counts
/// `bits_per_channel` bits for each channel, while the embedding engine
/// perturbs exactly one bit per channel; the declared figure is kept as the
/// planning quantity, and the engine reports capacity exhaustion itself
/// when a write at a depth above one runs past the grid.
pub open spec fn spec_declared_capacity(width: int, height: int, bits_per_channel: int) -> int {
    width * height * 3 * bits_per_channel / 8
}

/// Computes the declared capacity of a carrier.
pub fn declared_capacity(carrier: &Carrier, bits_per_channel: u8) -> (r: u64)
    requires
        carrier.wf(),
        valid_bit_depth(bits_per_channel),
    ensures
        r == spec_declared_capacity(
            carrier.width as int,
            carrier.height as int,
            bits_per_channel as int,
        ),
{
    let channels: usize = carrier.pixels.len();
    proof {
        let w = carrier.width as int;
        let h = carrier.height as int;
        let d = bits_per_channel as int;
        assert(channels * d == w * h * 3 * d && w * h * 3 * d <= 3 * channels) by (nonlinear_arith)
            requires
                channels == 3 * w * h,
                1 <= d <= 3,
                0 <= channels,
        ;
    }
    let bits: u128 = (channels as u128) * (bits_per_channel as u128);
    (bits / 8) as u64
}

/// The declared capacities of a carrier set, in order.
pub open spec fn spec_caps_of(carriers: Seq<Carrier>, bits_per_channel: u8) -> Seq<u64> {
    Seq::new(
        carriers.len(),
        |j: int|
            spec_declared_capacity(
                carriers[j].width as int,
                carriers[j].height as int,
                bits_per_channel as int,
            ) as u64,
    )
}

/// Declared capacity of carrier `i` not yet committed in this batch.
pub open spec fn spec_avail(caps: Seq<u64>, used: Seq<u64>, i: int) -> int {
    caps[i] - used[i]
}

/// Some carrier can take a frame of `size` bytes: its remaining declared
/// capacity is at least `size`, and positive.
pub open spec fn spec_can_place(caps: Seq<u64>, used: Seq<u64>, size: int) -> bool {
    exists|j: int|
        0 <= j < caps.len() && #[trigger] spec_avail(caps, used, j) >= size && spec_avail(
            caps,
            used,
            j,
        ) > 0
}

/// Carrier `i` is the best-fit choice for a frame of `size` bytes: it can
/// take the frame, no carrier has a larger remainder among those that can,
/// and no earlier carrier ties with it.
pub open spec fn spec_is_best_fit(caps: Seq<u64>, used: Seq<u64>, size: int, i: int) -> bool {
    &&& 0 <= i < caps.len()
    &&& spec_avail(caps, used, i) >= size
    &&& spec_avail(caps, used, i) > 0
    &&& forall|j: int|
        0 <= j < caps.len() && #[trigger] spec_avail(caps, used, j) >= size ==> spec_avail(
            caps,
            used,
            j,
        ) <= spec_avail(caps, used, i)
    &&& forall|j: int|
        0 <= j < i ==> #[trigger] spec_avail(caps, used, j) < spec_avail(caps, used, i)
            || spec_avail(caps, used, j) < size
}

/// Capacity boundary: a frame whose size equals some carrier's remaining
/// declared capacity can be placed, and when no remainder goes beyond
/// `size`, a frame one byte larger cannot be placed at all.
pub proof fn lemma_capacity_boundary(caps: Seq<u64>, used: Seq<u64>, size: int, j: int)
    requires
        caps.len() == used.len(),
        0 <= j < caps.len(),
        used[j] <= caps[j],
        spec_avail(caps, used, j) == size,
        size > 0,
        forall|t: int| 0 <= t < caps.len() ==> #[trigger] spec_avail(caps, used, t) <= size,
    ensures
        spec_can_place(caps, used, size),
        !spec_can_place(caps, used, size + 1),
{
    assert(spec_avail(caps, used, j) >= size && spec_avail(caps, used, j) > 0);
}

/// The best-fit choice is unique: the largest remainder with the
/// first-seen tie-break singles out one carrier.
pub proof fn lemma_best_fit_unique(caps: Seq<u64>, used: Seq<u64>, size: int, i1: int, i2: int)
    requires
        spec_is_best_fit(caps, used, size, i1),
        spec_is_best_fit(caps, used, size, i2),
    ensures
        i1 == i2,
{
    if i1 < i2 {
        assert(spec_avail(caps, used, i1) < spec_avail(caps, used, i2) || spec_avail(
            caps,
            used,
            i1,
        ) < size);
    }
    if i2 < i1 {
        assert(spec_avail(caps, used, i2) < spec_avail(caps, used, i1) || spec_avail(
            caps,
            used,
            i2,
        ) < size);
    }
}

/// Best-fit selection: among the carriers whose remaining declared capacity
/// is at least `size` (and positive), the one with the largest remainder,
/// ties broken by first-seen order; `None` exactly when no carrier
/// qualifies. A frame that exactly matches some remainder is placed; one
/// byte beyond every remainder is refused.
pub fn choose_carrier(caps: &Vec<u64>, used: &Vec<u64>, size: usize) -> (r: Option<usize>)
    requires
        caps@.len() == used@.len(),
        forall|j: int| 0 <= j < caps@.len() ==> #[trigger] used@[j] <= caps@[j],
    ensures
        r matches Some(i) ==> spec_is_best_fit(caps@, used@, size as int, i as int),
        (r is Some) == spec_can_place(caps@, used@, size as int),
{
    let n = caps.len();
    let mut best: Option<usize> = None;
    let mut best_space: u64 = 0;
    let mut idx: usize = 0;
    while idx < n
        invariant
            caps@.len() == used@.len(),
            n == caps@.len(),
            idx <= n,
            forall|j: int| 0 <= j < caps@.len() ==> #[trigger] used@[j] <= caps@[j],
            best is None ==> best_space == 0,
            best is None ==> forall|j: int|
                0 <= j < idx ==> #[trigger] spec_avail(caps@, used@, j) < size || spec_avail(
                    caps@,
                    used@,
                    j,
                ) <= 0,
            best matches Some(i) ==> {
                &&& i < idx
                &&& spec_avail(caps@, used@, i as int) == best_space
                &&& best_space >= size
                &&& best_space > 0
                &&& forall|j: int|
                    0 <= j < idx && #[trigger] spec_avail(caps@, used@, j) >= size ==> spec_avail(
                        caps@,
                        used@,
                        j,
                    ) <= best_space
                &&& forall|j: int|
                    0 <= j < i ==> #[trigger] spec_avail(caps@, used@, j) < best_space || spec_avail(
                        caps@,
                        used@,
                        j,
                    ) < size
            },
        decreases n - idx,
    {
        let avail: u64 = caps[idx] - used[idx];
        if avail >= size as u64 && avail > best_space {
            best = Some(idx);
            best_space = avail;
        }
        idx += 1;
    }
    best
}

} // verus!
