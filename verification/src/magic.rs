//! Magic entries: the perfect hash that maps the blockers relevant to a
//! sliding piece on one square to a slot of a shared attack table.

use crate::bitboard::{bit, count, lemma_count_empty, lemma_count_one_less, lemma_lsb, lsb};
use crate::bitboard::{pop_lsb, Bitboard};
use rand::Rng;
use vstd::prelude::*;

verus! {

/// The multiplier of each square's rook entry.
pub const ROOK_MAGIC_NR: [u64; 64] = [
    0x0280002280534000, 0x04c00b3000200040, 0x1080200008100082, 0x058008021000800c,
    0x0c800c0022800800, 0x0100040042210008, 0x0a80428022000100, 0x0200020400844021,
    0x41888000c0018028, 0x1483401000402000, 0x0d50802000900480, 0x8801000900201004,
    0x5100804400801800, 0x0202000502001890, 0x0022000a00030804, 0x4002800441001080,
    0x0880004000200251, 0x800202004081006c, 0x0000110041002000, 0x10106a0020401200,
    0x000800801400800a, 0x1284808006000400, 0x104c840048010210, 0x20940200104c0091,
    0x0000400080208000, 0x0210004840016002, 0x0100200180100181, 0x08210009001000a0,
    0x1200180080240080, 0x0404fa0080240080, 0x410a000600014804, 0x001408420002a401,
    0x4184400022800880, 0x0060804000802000, 0x0201802008801004, 0x0000920222000840,
    0x0102000422000810, 0x00000c0080804200, 0x1442025004002801, 0x04004106a6000444,
    0x0054c00082208000, 0x0020200040008080, 0x0801004120010010, 0x8000880010008080,
    0x0208000804008080, 0x0402000428420010, 0x04200a4830040001, 0x0080440044820009,
    0x1000801027024500, 0x6340008020005080, 0x0300200102104300, 0xc081201000090100,
    0x5408080284008080, 0x08020004000e8080, 0x200d0002000c4100, 0x0000112408c48a00,
    0x20808542015100a2, 0x0401645302c20082, 0x00c0228040081202, 0x800808d001000c61,
    0x0006008410200802, 0x0205001804000299, 0x00010209300808a4, 0x0804812140840116,
];

/// The multiplier of each square's bishop entry.
pub const BISHOP_MAGIC_NR: [u64; 64] = [
    0x0410501010802046, 0x02900210a400820a, 0x0410810600610600, 0x1930918204810000,
    0x4004104400008000, 0x0202080404000012, 0x0222081202120000, 0x808240c200904000,
    0x000004110c180080, 0x0002081001204101, 0x0a00100122086402, 0x9024040404808041,
    0x07d0021210400000, 0x00084a08121a0000, 0x4000020890080800, 0x10000021084a1030,
    0x0010102002024816, 0x0820020608012120, 0x0808005408041070, 0x0024078804105000,
    0x8203008820084014, 0x8001000881600232, 0x0020600384242000, 0x28108001a4040200,
    0x4810100040044140, 0x4092288010150830, 0x0048040808002424, 0x0040410008010900,
    0x49408c0000806003, 0x0418260004414201, 0x0002008002019008, 0x0201010082004920,
    0x8088184244080210, 0x1000982000540408, 0x80040024000802c0, 0x8280042008040100,
    0x014c010805040040, 0x9041110200010805, 0x08020403000c0882, 0x0104148080060062,
    0x0000820820004000, 0x0002010420002600, 0x0202602028001020, 0x0200004200811800,
    0x0102380104014040, 0x2040280081000221, 0x4008022808400200, 0x9010240840900242,
    0x4201420860890000, 0x0440808490101011, 0x0001090841102008, 0x8040bc2084040018,
    0x9c000c90ca021110, 0x04121c0408020088, 0x0040940806086020, 0x0004308202106214,
    0x2202120110083402, 0x0200008184100225, 0x0120621121080822, 0x9004823583460810,
    0x001100004010c505, 0x8000010820088082, 0x004004201ca40081, 0x0005101005010030,
];

/// The hash of a set of blockers: the blockers within `mask`, multiplied by
/// `nr` modulo 2^64, shifted right by `shift`.
pub open spec fn magic_hash(mask: Bitboard, shift: u8, nr: u64, blocker: Bitboard) -> u64 {
    (blocker & mask).wrapping_mul(nr) >> (shift as u64)
}

/// Whether the multiplier `nr` hashes the subsets of `mask` without
/// collision: no two different subsets share a hash.
pub open spec fn is_perfect(mask: Bitboard, shift: u8, nr: u64) -> bool {
    forall|a: Bitboard, b: Bitboard|
        a & mask == a && b & mask == b && a != b ==> #[trigger] magic_hash(mask, shift, nr, a)
            != #[trigger] magic_hash(mask, shift, nr, b)
}

/// The multiplier shipped for a square and a kind of slider.
pub open spec fn magic_nr(diagonal: bool, square: int) -> u64 {
    if diagonal {
        BISHOP_MAGIC_NR[square]
    } else {
        ROOK_MAGIC_NR[square]
    }
}

/// The shift of a magic entry with the given mask: 64 less the number of
/// squares in the mask.
pub open spec fn magic_shift(mask: Bitboard) -> u8 {
    (64 - count(mask)) as u8
}

/// The magic entry of one square for one kind of sliding piece.
#[derive(Clone, Copy, Debug)]
pub struct Magic {
    /// The squares whose occupancy can change the attack.
    pub mask: Bitboard,
    /// The right shift of the hash: 64 less the number of squares in `mask`.
    pub shift: u8,
    /// Where the square's slots begin in the shared table.
    pub offset: u64,
    /// The multiplier.
    pub nr: u64,
}

impl Magic {
    /// The slot of the shared table that a set of blockers maps to.
    pub open spec fn slot(self, blocker: Bitboard) -> int {
        magic_hash(self.mask, self.shift, self.nr, blocker) + self.offset
    }

    /// The largest hash that the entry can produce.
    pub open spec fn span(self) -> u64 {
        u64::MAX >> (self.shift as u64)
    }

    /// The slot of the shared table that a set of blockers maps to. Squares
    /// outside the mask do not matter.
    pub fn get_index(&self, blocker: Bitboard) -> (index: usize)
        requires
            self.shift < 64,
            self.offset + self.span() <= usize::MAX,
        ensures
            index == self.slot(blocker),
            self.offset <= index <= self.offset + self.span(),
    {
        let product: u64 = (blocker & self.mask).wrapping_mul(self.nr);
        let shift: u64 = self.shift as u64;
        assert(product >> shift <= u64::MAX >> shift) by (bit_vector)
            requires
                shift < 64,
        ;
        ((product >> shift) + self.offset) as usize
    }
}

impl Default for Magic {
    /// The entry with every field zero.
    fn default() -> (magic: Magic)
        ensures
            magic == (Magic { mask: 0, shift: 0, offset: 0, nr: 0 }),
    {
        Magic { mask: 0, shift: 0, offset: 0, nr: 0 }
    }
}

/// The subset of `mask` that `index` selects: the member of `mask` at place
/// `place`, counted from the lowest from `place` up to `bits`, belongs to it
/// exactly when bit `place` of `index` is set. `rest` holds the members of
/// `mask` from that place up, and `chosen` what was selected below it.
pub open spec fn subset_at(
    index: usize,
    bits: int,
    rest: Bitboard,
    place: int,
    chosen: Bitboard,
) -> Bitboard
    decreases bits - place,
{
    if place >= bits || place < 0 {
        chosen
    } else {
        subset_at(
            index,
            bits,
            rest & !bit(lsb(rest)),
            place + 1,
            if index & (1usize << (place as usize)) != 0 {
                chosen | bit(lsb(rest))
            } else {
                chosen
            },
        )
    }
}

/// A random 64-bit word from the thread's generator, as
/// `rand::thread_rng().gen::<u64>()` returns it. Nothing is promised of the
/// word, and nothing about the call is proved here. The generator takes its
/// seed from the system when a thread first uses it, and again each time it
/// reseeds after a while; at either point it stops the program if the
/// system has no randomness to give.
#[verifier::external_body]
fn random_u64() -> (word: u64) {
    rand::thread_rng().gen::<u64>()
}

/// A random word with few bits set: three random words, intersected.
pub fn random_u64_fewbits() -> (word: u64) {
    few_bits(random_u64(), random_u64(), random_u64())
}

/// The word that three words leave when they are intersected: a bit is set
/// in it exactly when it is set in all three. Of three random words this
/// leaves about one bit in eight.
pub fn few_bits(first: u64, second: u64, third: u64) -> (word: u64)
    ensures
        word == first & second & third,
{
    first & second & third
}

/// The subset of `bitboard` that `index` selects among its `bits` lowest
/// members: the member at place `i`, counted from the lowest, belongs to
/// the subset exactly when bit `i` of `index` is set.
pub fn index_to_uint64(index: usize, bits: u8, bitboard: Bitboard) -> (subset: Bitboard)
    requires
        bits <= count(bitboard),
        bits <= 32,
    ensures
        subset == subset_at(index, bits as int, bitboard, 0, 0),
{
    let mut rest: Bitboard = bitboard;
    let mut result: Bitboard = 0;
    let mut i: u8 = 0;

    while i < bits
        invariant
            i <= bits <= 32,
            bits - i <= count(rest),
            subset_at(index, bits as int, bitboard, 0, 0) == subset_at(
                index,
                bits as int,
                rest,
                i as int,
                result,
            ),
        decreases bits - i,
    {
        proof {
            if rest == 0 {
                lemma_count_empty(64);
            }
            lemma_lsb(rest);
            lemma_count_one_less(rest, lsb(rest), 64);
        }
        let square_index: u8 = pop_lsb(&mut rest);

        if index & (1usize << (i as usize)) != 0 {
            result |= 1u64 << (square_index as u64);
        }
        i += 1;
    }
    result
}

} // verus!
