//! Framing of a Honeywell 5816 broadcast: locking onto the 15 sync pulses
//! of the preamble, and checking the 48 data bits (a 32-bit payload followed
//! by its 16-bit CRC).

use vstd::prelude::*;
use bitvec::field::BitField;

verus! {

/// The number of rising edges in the sync preamble.
pub const SYNC_PULSES: usize = 15;

/// The number of bits in a frame: 32 payload bits and 16 CRC bits.
pub const FRAME_BITS: usize = 48;

/// The unsigned number whose binary digits, most significant first, are `bits`.
pub open spec fn bits_value(bits: Seq<bool>) -> nat
    decreases bits.len(),
{
    if bits.len() == 0 {
        0
    } else {
        bits_value(bits.drop_last()) * 2 + if bits.last() {
            1nat
        } else {
            0nat
        }
    }
}

/// The big-endian bytes of `x`.
pub open spec fn be_bytes(x: u32) -> Seq<u8> {
    seq![
        (x as int / 0x100_0000) as u8,
        ((x as int / 0x1_0000) % 256) as u8,
        ((x as int / 0x100) % 256) as u8,
        (x as int % 256) as u8,
    ]
}

/// Bit `k` (0 = least significant) of `byte`.
pub open spec fn byte_bit(byte: u8, k: nat) -> bool
    decreases k,
{
    if k == 0 {
        byte % 2 == 1
    } else {
        byte_bit(byte / 2, (k - 1) as nat)
    }
}

/// One step of the CRC register: shift in `bit`, and subtract (xor) the
/// polynomial 0x8005 when the bit shifted out differs from it.
pub open spec fn crc16_step(crc: u16, bit: bool) -> u16 {
    let shifted = ((crc as int * 2) % 0x1_0000) as u16;
    if (crc >= 0x8000) != bit {
        shifted ^ 0x8005u16
    } else {
        shifted
    }
}

/// Feeds the `n` low bits of `byte`, most significant first, into the register.
pub open spec fn crc16_bits(crc: u16, byte: u8, n: nat) -> u16
    decreases n,
{
    if n == 0 {
        crc
    } else {
        crc16_bits(crc16_step(crc, byte_bit(byte, (n - 1) as nat)), byte, (n - 1) as nat)
    }
}

/// The CRC-16/UMTS checksum of `data`: polynomial 0x8005, initial value 0,
/// bytes fed most significant bit first, no reflection of the result and no
/// final xor.
pub open spec fn crc16_umts(data: Seq<u8>) -> u16
    decreases data.len(),
{
    if data.len() == 0 {
        0
    } else {
        crc16_bits(crc16_umts(data.drop_last()), data.last(), 8)
    }
}

/// The checksum of the ASCII digits `123456789` is 0xFEE8, the check value
/// that the CRC catalogue lists for CRC-16/UMTS.
pub proof fn lemma_crc16_umts_check_value()
    ensures
        crc16_umts(seq![0x31u8, 0x32, 0x33, 0x34, 0x35, 0x36, 0x37, 0x38, 0x39]) == 0xFEE8u16,
{
    assert(crc16_umts(seq![0x31u8, 0x32, 0x33, 0x34, 0x35, 0x36, 0x37, 0x38, 0x39]) == 0xFEE8u16) by (bit_vector);
}

/// Calls `crc::Crc::<u16>::checksum` for the catalog algorithm
/// `crc::CRC_16_UMTS`, the CRC that Honeywell 5800-series sensors append to
/// their payload. Claimed, as the catalog's parameters (width 16, poly 0x8005,
/// init 0, refin and refout false, xorout 0) define it: the checksum is
/// `crc16_umts` of the bytes.
#[verifier::external_body]
fn crc16_umts_checksum(bytes: &[u8]) -> (r: u16)
    ensures
        r == crc16_umts(bytes@),
{
    crc::Crc::<u16>::new(&crc::CRC_16_UMTS).checksum(bytes)
}

/// Collects `bits` into a `bitvec::vec::BitVec<u8, Msb0>` and calls
/// `BitField::load_be::<u32>` on it. Claimed, as bitvec documents for `Msb0`
/// big-endian loads of 1 to 32 bits: the bits are read as one unsigned number,
/// the first bit most significant.
#[verifier::external_body]
fn load_be_bits(bits: &[bool]) -> (r: u32)
    requires
        1 <= bits@.len() <= 32,
    ensures
        r == bits_value(bits@),
{
    let bv: bitvec::vec::BitVec<u8, bitvec::order::Msb0> = bits.iter().copied().collect();
    bv.load_be::<u32>()
}

/// The payload that a 48-bit frame carries when its CRC is right.
pub open spec fn frame_payload(bits: Seq<bool>) -> Option<u32> {
    let body = bits_value(bits.subrange(0, 32)) as u32;
    let received = bits_value(bits.subrange(32, 48)) as u16;
    if received == crc16_umts(be_bytes(body)) {
        Some(body)
    } else {
        None
    }
}

proof fn lemma_bits_value_bound(bits: Seq<bool>)
    ensures
        bits_value(bits) < vstd::arithmetic::power2::pow2(bits.len()),
    decreases bits.len(),
{
    if bits.len() > 0 {
        lemma_bits_value_bound(bits.drop_last());
        vstd::arithmetic::power2::lemma_pow2_unfold(bits.len());
    } else {
        vstd::arithmetic::power2::lemma2_to64();
    }
}

/// Accepts `body` when the CRC received with it equals the one computed over it.
pub fn accept_frame(body: u32, received: u16, computed: u16) -> (r: Option<u32>)
    ensures
        r == (if received == computed {
            Some(body)
        } else {
            None
        }),
{
    if received == computed {
        Some(body)
    } else {
        None
    }
}

/// Splits `x` into its big-endian bytes.
fn to_be_bytes(x: u32) -> (r: [u8; 4])
    ensures
        r@ == be_bytes(x),
{
    let r = [(x >> 24u32) as u8, ((x >> 16u32) & 0xff) as u8, ((x >> 8u32) & 0xff) as u8, (x & 0xff) as u8];
    proof {
        assert((x >> 24u32) == x / 0x100_0000) by (bit_vector);
        assert(((x >> 16u32) & 0xff) == (x / 0x1_0000) % 256) by (bit_vector);
        assert(((x >> 8u32) & 0xff) == (x / 0x100) % 256) by (bit_vector);
        assert((x & 0xff) == x % 256) by (bit_vector);
        assert(r@ =~= be_bytes(x));
    }
    r
}

/// The positions that lock a receiver onto a broadcast's preamble: the first
/// and the last of the 15 sync edges, and the falling edge after the last one,
/// from which the data bits are counted.
#[derive(Clone, Copy, Debug, PartialEq, Eq, Structural)]
pub struct SyncLock {
    pub first: usize,
    pub last: usize,
    pub origin: usize,
}

/// The first index at or after `from` where `marks` is set, or `marks.len()`.
pub open spec fn next_mark(marks: Seq<bool>, from: int) -> int
    decreases marks.len() - from,
{
    if from >= marks.len() {
        marks.len() as int
    } else if marks[from] {
        from
    } else {
        next_mark(marks, from + 1)
    }
}

/// The index found lies between `from` and the end of `marks`, and `marks`
/// is set there unless it is the end.
pub proof fn lemma_next_mark(marks: Seq<bool>, from: int)
    requires
        0 <= from <= marks.len(),
    ensures
        from <= next_mark(marks, from) <= marks.len(),
        next_mark(marks, from) < marks.len() ==> marks[next_mark(marks, from)],
        forall|i: int| from <= i < next_mark(marks, from) ==> !#[trigger] marks[i],
    decreases marks.len() - from,
{
    if from < marks.len() && !marks[from] {
        lemma_next_mark(marks, from + 1);
    }
}

/// The preamble search from position `origin`, with `count` sync edges found
/// so far, the first of them at `first`: find the next rising edge, then the
/// falling edge after it; a pulse longer than `reset` starts the count anew
/// `reset` samples after its rising edge.
pub open spec fn sync_search(
    rising: Seq<bool>,
    falling: Seq<bool>,
    reset: nat,
    origin: int,
    count: nat,
    first: int,
) -> Option<SyncLock>
    decreases rising.len() + 1 - origin, SYNC_PULSES - count,
    when 0 <= origin <= rising.len() && falling.len() == rising.len() && count < SYNC_PULSES && reset >= 1
{
    let next = next_mark(rising, origin);
    proof {
        lemma_next_mark(rising, origin);
        if next < rising.len() {
            lemma_next_mark(falling, next);
        }
    }
    if next >= rising.len() {
        None
    } else {
        let fall = next_mark(falling, next);
        if fall >= falling.len() {
            None
        } else if fall - next > reset {
            sync_search(rising, falling, reset, next + reset, 0, 0)
        } else if count + 1 >= SYNC_PULSES {
            Some(SyncLock { first: (if count == 0 { next } else { first }) as usize, last: next as usize, origin: fall as usize })
        } else {
            sync_search(rising, falling, reset, fall, count + 1, if count == 0 { next } else { first })
        }
    }
}


/// Every lock the preamble search returns sits on real edges: the first and
/// last sync positions are rising edges, the origin is a falling edge, and
/// they come in that order within the signal.
pub proof fn lemma_sync_lock_on_edges(
    rising: Seq<bool>,
    falling: Seq<bool>,
    reset: nat,
    origin: int,
    count: nat,
    first: int,
)
    requires
        0 <= origin <= rising.len() <= usize::MAX,
        falling.len() == rising.len(),
        count < SYNC_PULSES,
        reset >= 1,
        count > 0 ==> 0 <= first < rising.len() && rising[first] && first <= origin,
        sync_search(rising, falling, reset, origin, count, first) is Some,
    ensures
        ({
            let lock = sync_search(rising, falling, reset, origin, count, first)->Some_0;
            &&& lock.first <= lock.last <= lock.origin < rising.len()
            &&& rising[lock.first as int]
            &&& rising[lock.last as int]
            &&& falling[lock.origin as int]
        }),
    decreases rising.len() + 1 - origin, SYNC_PULSES - count,
{
    let next = next_mark(rising, origin);
    lemma_next_mark(rising, origin);
    if next < rising.len() {
        let fall = next_mark(falling, next);
        lemma_next_mark(falling, next);
        if fall < falling.len() {
            if fall - next > reset {
                lemma_sync_lock_on_edges(rising, falling, reset, next + reset, 0, 0);
            } else if count + 1 < SYNC_PULSES {
                lemma_sync_lock_on_edges(
                    rising,
                    falling,
                    reset,
                    fall,
                    count + 1,
                    if count == 0 {
                        next
                    } else {
                        first
                    },
                );
            }
        }
    }
}

/// Whether every pulse that rises in `[from, to)` is at most `reset`
/// samples long: from a rising edge to the next falling edge.
pub open spec fn pulses_within_reset(rising: Seq<bool>, falling: Seq<bool>, reset: nat, from: int, to: int) -> bool {
    forall|i: int| from <= i < to && rising[i] ==> #[trigger] next_mark(falling, i) - i <= reset
}

proof fn lemma_next_mark_at(marks: Seq<bool>, from: int, at: int)
    requires
        0 <= from <= at < marks.len(),
        marks[at],
        forall|j: int| from <= j < at ==> !#[trigger] marks[j],
    ensures
        next_mark(marks, from) == at,
    decreases at - from,
{
    if from < at {
        lemma_next_mark_at(marks, from + 1, at);
    }
}

proof fn lemma_sync_lock_pulses_short_from(
    rising: Seq<bool>,
    falling: Seq<bool>,
    reset: nat,
    origin: int,
    count: nat,
    first: int,
)
    requires
        0 <= origin <= rising.len() <= usize::MAX,
        falling.len() == rising.len(),
        count < SYNC_PULSES,
        reset >= 1,
        count > 0 ==> 0 <= first <= origin && pulses_within_reset(rising, falling, reset, first, origin),
        sync_search(rising, falling, reset, origin, count, first) is Some,
    ensures
        ({
            let lock = sync_search(rising, falling, reset, origin, count, first)->Some_0;
            &&& pulses_within_reset(rising, falling, reset, lock.first as int, lock.last + 1)
            &&& lock.origin == next_mark(falling, lock.last as int)
        }),
    decreases rising.len() + 1 - origin, SYNC_PULSES - count,
{
    let next = next_mark(rising, origin);
    lemma_next_mark(rising, origin);
    let fall = next_mark(falling, next);
    lemma_next_mark(falling, next);
    let start = if count == 0 { next } else { first };
    if fall - next > reset {
        lemma_sync_lock_pulses_short_from(rising, falling, reset, next + reset, 0, 0);
    } else {
        assert forall|i: int| start <= i < fall && rising[i] implies #[trigger] next_mark(falling, i) - i
            <= reset by {
            if i < origin {
            } else if i < next {
                assert(!rising[i]);
            } else {
                lemma_next_mark_at(falling, i, fall);
            }
        }
        if count + 1 < SYNC_PULSES {
            lemma_sync_lock_pulses_short_from(rising, falling, reset, fall, count + 1, start);
        }
    }
}

/// A pulse longer than the reset time starts the preamble count anew: no
/// pulse that rises anywhere from the lock's first sync edge to its last one
/// (the 15 counted pulses and the gaps between them) is longer than the
/// reset time, so the counted edges all come after the last over-long pulse.
/// The bits are counted from the falling edge that ends the last sync pulse.
pub proof fn lemma_sync_lock_after_last_long_pulse(rising: Seq<bool>, falling: Seq<bool>, reset: nat)
    requires
        rising.len() <= usize::MAX,
        falling.len() == rising.len(),
        reset >= 1,
        sync_search(rising, falling, reset, 0, 0, 0) is Some,
    ensures
        ({
            let lock = sync_search(rising, falling, reset, 0, 0, 0)->Some_0;
            &&& forall|i: int|
                lock.first <= i <= lock.last && rising[i] ==> #[trigger] next_mark(falling, i) - i <= reset
            &&& lock.origin == next_mark(falling, lock.last as int)
        }),
{
    lemma_sync_lock_pulses_short_from(rising, falling, reset, 0, 0, 0);
}

/// The first index at or after `from` where `marks` is set, or `marks.len()`.
fn find_mark(marks: &[bool], from: usize) -> (r: usize)
    requires
        from <= marks@.len(),
    ensures
        r == next_mark(marks@, from as int),
{
    let mut i = from;
    while i < marks.len()
        invariant
            from <= i <= marks@.len(),
            next_mark(marks@, i as int) == next_mark(marks@, from as int),
        decreases marks@.len() - i,
    {
        if marks[i] {
            return i;
        }
        i = i + 1;
    }
    i
}

/// Decodes frames of one sample rate.
pub struct MessageParser {
    reset_time: usize,
}

impl MessageParser {
    pub closed spec fn spec_reset_time(&self) -> usize {
        self.reset_time
    }

    /// A decoder for which a pulse longer than `reset_time` samples breaks the
    /// preamble (2 ms of samples at the receiver's sample rate).
    pub fn new(reset_time: usize) -> (p: MessageParser)
        requires
            reset_time >= 1,
        ensures
            p.spec_reset_time() == reset_time,
    {
        MessageParser { reset_time }
    }

    /// Searches the signal for its sync preamble. `rising[i]` and
    /// `falling[i]` tell whether the signal's gradient at sample `i` is above
    /// the rising threshold, or below the falling one.
    pub fn find_sync(&self, rising: &[bool], falling: &[bool]) -> (r: Option<SyncLock>)
        requires
            self.spec_reset_time() >= 1,
            falling@.len() == rising@.len(),
        ensures
            r == sync_search(rising@, falling@, self.spec_reset_time() as nat, 0, 0, 0),
    {
        let len = rising.len();
        let reset = self.reset_time;
        let mut origin: usize = 0;
        let mut count: usize = 0;
        let mut first: usize = 0;
        loop
            invariant
                len == rising@.len(),
                falling@.len() == rising@.len(),
                reset == self.spec_reset_time(),
                reset >= 1,
                origin <= len,
                count < SYNC_PULSES,
                sync_search(rising@, falling@, reset as nat, origin as int, count as nat, first as int)
                    == sync_search(rising@, falling@, reset as nat, 0, 0, 0),
            decreases len + 1 - origin, SYNC_PULSES - count,
        {
            proof {
                lemma_next_mark(rising@, origin as int);
            }
            let next = find_mark(rising, origin);
            if next >= len {
                return None;
            }
            proof {
                lemma_next_mark(falling@, next as int);
            }
            let fall = find_mark(falling, next);
            if fall >= len {
                return None;
            }
            if fall - next > reset {
                origin = next + reset;
                count = 0;
                first = 0;
            } else {
                let start = if count == 0 {
                    next
                } else {
                    first
                };
                if count + 1 >= SYNC_PULSES {
                    return Some(SyncLock { first: start, last: next, origin: fall });
                }
                origin = fall;
                count = count + 1;
                first = start;
            }
        }
    }

    /// Reads the 32-bit payload and its 16-bit CRC from a 48-bit frame and
    /// returns the payload when the CRC matches.
    pub fn check_frame(&self, bits: &[bool]) -> (r: Option<u32>)
        requires
            bits@.len() == FRAME_BITS,
        ensures
            r == frame_payload(bits@),
    {
        let head = slice_range(bits, 0, 32);
        let tail = slice_range(bits, 32, 48);
        let body = load_be_bits(head);
        let received = load_be_bits(tail);
        proof {
            lemma_bits_value_bound(head@);
            lemma_bits_value_bound(tail@);
            vstd::arithmetic::power2::lemma2_to64();
        }
        let bytes = to_be_bytes(body);
        let computed = crc16_umts_checksum(&bytes);
        accept_frame(body, received as u16, computed)
    }

    /// Decodes a broadcast from the bits that the sampler read off it:
    /// nothing when no frame was found (`None`), otherwise the frame's
    /// payload when its CRC matches.
    pub fn parse_bits(&self, bits: Option<Vec<bool>>) -> (r: Option<u32>)
        requires
            bits matches Some(b) ==> b@.len() == FRAME_BITS,
        ensures
            r == match bits {
                None => None,
                Some(b) => frame_payload(b@),
            },
    {
        match bits {
            None => None,
            Some(b) => self.check_frame(b.as_slice()),
        }
    }
}

/// `s[from..to]`.
fn slice_range(s: &[bool], from: usize, to: usize) -> (r: &[bool])
    requires
        from <= to <= s@.len(),
    ensures
        r@ == s@.subrange(from as int, to as int),
{
    vstd::slice::slice_subrange(s, from, to)
}


/// A frame whose CRC field holds the CRC of its payload's bytes is accepted
/// and yields that payload; a frame whose CRC field holds anything else is
/// refused.
pub proof fn lemma_frame_accepted_iff_crc_matches(bits: Seq<bool>, body: u32)
    requires
        bits.len() == FRAME_BITS,
        bits_value(bits.subrange(0, 32)) == body,
    ensures
        frame_payload(bits) == Some(body) <==> bits_value(bits.subrange(32, 48)) == crc16_umts(
            be_bytes(body),
        ),
        frame_payload(bits) is None <==> bits_value(bits.subrange(32, 48)) != crc16_umts(be_bytes(body)),
{
    lemma_bits_value_bound(bits.subrange(32, 48));
    vstd::arithmetic::power2::lemma2_to64();
}

} // verus!
