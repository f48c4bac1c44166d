//! The cipher that some entries are stored under: single blocks of eight
//! bytes pass through one round of DES without a key, others have their
//! bytes shuffled, most are left as they are.

use vstd::prelude::*;
use crate::formats::FileTableRow;
use crate::formats::FileTableRowView;

verus! {

/// Where each bit of a block comes from before the round.
pub const INITIAL_PERMUTATION: [u8; 64] = [
    58, 50, 42, 34, 26, 18, 10, 2,
    60, 52, 44, 36, 28, 20, 12, 4,
    62, 54, 46, 38, 30, 22, 14, 6,
    64, 56, 48, 40, 32, 24, 16, 8,
    57, 49, 41, 33, 25, 17, 9, 1,
    59, 51, 43, 35, 27, 19, 11, 3,
    61, 53, 45, 37, 29, 21, 13, 5,
    63, 55, 47, 39, 31, 23, 15, 7,
];

/// Where each bit of a block comes from after the round: the inverse of the
/// initial permutation.
pub const FINAL_PERMUTATION: [u8; 64] = [
    40, 8, 48, 16, 56, 24, 64, 32,
    39, 7, 47, 15, 55, 23, 63, 31,
    38, 6, 46, 14, 54, 22, 62, 30,
    37, 5, 45, 13, 53, 21, 61, 29,
    36, 4, 44, 12, 52, 20, 60, 28,
    35, 3, 43, 11, 51, 19, 59, 27,
    34, 2, 42, 10, 50, 18, 58, 26,
    33, 1, 41, 9, 49, 17, 57, 25,
];

/// Which bits of a half block make up each of its eight groups of six.
pub const EXPANSION: [u8; 48] = [
    32, 1, 2, 3, 4, 5,
    4, 5, 6, 7, 8, 9,
    8, 9, 10, 11, 12, 13,
    12, 13, 14, 15, 16, 17,
    16, 17, 18, 19, 20, 21,
    20, 21, 22, 23, 24, 25,
    24, 25, 26, 27, 28, 29,
    28, 29, 30, 31, 32, 1,
];

/// Where each bit of the substituted half block goes.
pub const TRANSPOSITION: [u8; 32] = [
    16, 7, 20, 21, 29, 12, 28, 17,
    1, 15, 23, 26, 5, 18, 31, 10,
    2, 8, 24, 14, 32, 27, 3, 9,
    19, 13, 30, 6, 22, 11, 4, 25,
];

/// The eight substitution boxes, each as four rows of sixteen values.
pub const SUBSTITUTION: [[u8; 64]; 8] = [
    [
        14, 4, 13, 1, 2, 15, 11, 8, 3, 10, 6, 12, 5, 9, 0, 7,
        0, 15, 7, 4, 14, 2, 13, 1, 10, 6, 12, 11, 9, 5, 3, 8,
        4, 1, 14, 8, 13, 6, 2, 11, 15, 12, 9, 7, 3, 10, 5, 0,
        15, 12, 8, 2, 4, 9, 1, 7, 5, 11, 3, 14, 10, 0, 6, 13,
    ],
    [
        15, 1, 8, 14, 6, 11, 3, 4, 9, 7, 2, 13, 12, 0, 5, 10,
        3, 13, 4, 7, 15, 2, 8, 14, 12, 0, 1, 10, 6, 9, 11, 5,
        0, 14, 7, 11, 10, 4, 13, 1, 5, 8, 12, 6, 9, 3, 2, 15,
        13, 8, 10, 1, 3, 15, 4, 2, 11, 6, 7, 12, 0, 5, 14, 9,
    ],
    [
        10, 0, 9, 14, 6, 3, 15, 5, 1, 13, 12, 7, 11, 4, 2, 8,
        13, 7, 0, 9, 3, 4, 6, 10, 2, 8, 5, 14, 12, 11, 15, 1,
        13, 6, 4, 9, 8, 15, 3, 0, 11, 1, 2, 12, 5, 10, 14, 7,
        1, 10, 13, 0, 6, 9, 8, 7, 4, 15, 14, 3, 11, 5, 2, 12,
    ],
    [
        7, 13, 14, 3, 0, 6, 9, 10, 1, 2, 8, 5, 11, 12, 4, 15,
        13, 8, 11, 5, 6, 15, 0, 3, 4, 7, 2, 12, 1, 10, 14, 9,
        10, 6, 9, 0, 12, 11, 7, 13, 15, 1, 3, 14, 5, 2, 8, 4,
        3, 15, 0, 6, 10, 1, 13, 8, 9, 4, 5, 11, 12, 7, 2, 14,
    ],
    [
        2, 12, 4, 1, 7, 10, 11, 6, 8, 5, 3, 15, 13, 0, 14, 9,
        14, 11, 2, 12, 4, 7, 13, 1, 5, 0, 15, 10, 3, 9, 8, 6,
        4, 2, 1, 11, 10, 13, 7, 8, 15, 9, 12, 5, 6, 3, 0, 14,
        11, 8, 12, 7, 1, 14, 2, 13, 6, 15, 0, 9, 10, 4, 5, 3,
    ],
    [
        12, 1, 10, 15, 9, 2, 6, 8, 0, 13, 3, 4, 14, 7, 5, 11,
        10, 15, 4, 2, 7, 12, 9, 5, 6, 1, 13, 14, 0, 11, 3, 8,
        9, 14, 15, 5, 2, 8, 12, 3, 7, 0, 4, 10, 1, 13, 11, 6,
        4, 3, 2, 12, 9, 5, 15, 10, 11, 14, 1, 7, 6, 0, 8, 13,
    ],
    [
        4, 11, 2, 14, 15, 0, 8, 13, 3, 12, 9, 7, 5, 10, 6, 1,
        13, 0, 11, 7, 4, 9, 1, 10, 14, 3, 5, 12, 2, 15, 8, 6,
        1, 4, 11, 13, 12, 3, 7, 14, 10, 15, 6, 8, 0, 5, 9, 2,
        6, 11, 13, 8, 1, 4, 10, 7, 9, 5, 0, 15, 14, 2, 3, 12,
    ],
    [
        13, 2, 8, 4, 6, 15, 11, 1, 10, 9, 3, 14, 5, 0, 12, 7,
        1, 15, 13, 8, 10, 3, 7, 4, 12, 5, 6, 11, 0, 14, 9, 2,
        7, 11, 4, 1, 9, 12, 14, 2, 0, 6, 10, 13, 15, 3, 5, 8,
        2, 1, 14, 7, 4, 10, 8, 13, 15, 12, 9, 0, 3, 5, 6, 11,
    ],
];

/// The value of the bit at `place` in a byte, the highest bit being at
/// place 0.
pub open spec fn weight(place: int) -> int {
    if place == 0 {
        128
    } else if place == 1 {
        64
    } else if place == 2 {
        32
    } else if place == 3 {
        16
    } else if place == 4 {
        8
    } else if place == 5 {
        4
    } else if place == 6 {
        2
    } else {
        1
    }
}

/// The number of values that `width` bits can take, for up to eight bits.
pub open spec fn span(width: int) -> int {
    if width <= 0 {
        1
    } else if width == 1 {
        2
    } else if width == 2 {
        4
    } else if width == 3 {
        8
    } else if width == 4 {
        16
    } else if width == 5 {
        32
    } else if width == 6 {
        64
    } else if width == 7 {
        128
    } else {
        256
    }
}

/// Bit `index` of a run of bytes, 0 or 1, counting from the highest bit of
/// the first byte.
pub open spec fn bit_of(bytes: Seq<u8>, index: int) -> int {
    (bytes[index / 8] as int / weight(index % 8)) % 2
}

/// The number that `width` bits of `source` make, highest bit first. The
/// entries of `table` from `start` on name the bits, the first bit of the
/// source being bit 1.
pub open spec fn gathered(source: Seq<u8>, table: Seq<u8>, start: int, width: nat) -> int
    decreases width,
{
    if width == 0 {
        0
    } else {
        2 * gathered(source, table, start, (width - 1) as nat) + bit_of(
            source,
            table[start + width - 1] - 1,
        )
    }
}

/// The bytes whose bits are those of `source` that `table` names, eight to
/// a byte.
pub open spec fn permuted(source: Seq<u8>, table: Seq<u8>) -> Seq<u8> {
    Seq::new(table.len() / 8, |k: int| gathered(source, table, 8 * k, 8) as u8)
}

/// The eight groups of six bits that a half block expands to.
pub open spec fn expanded(half: Seq<u8>) -> Seq<u8> {
    Seq::new(8, |g: int| gathered(half, EXPANSION@, 6 * g, 6) as u8)
}

/// What box `index` holds for a group of six bits: the outer two bits pick
/// the row, the inner four the column. Bits above the sixth are not looked
/// at.
pub open spec fn substitution(index: int, group: u8) -> u8 {
    let six = group % 64;
    SUBSTITUTION[index][(six / 32 * 2 + six % 2) * 16 + six / 2 % 16]
}

/// The half block that eight groups are substituted by: each box gives four
/// bits.
pub open spec fn substituted(groups: Seq<u8>) -> Seq<u8> {
    Seq::new(
        4,
        |i: int|
            (substitution(2 * i, groups[2 * i]) * 16 + substitution(
                2 * i + 1,
                groups[2 * i + 1],
            )) as u8,
    )
}

/// What the round makes of a half block: expanded, substituted, transposed.
pub open spec fn round_function(half: Seq<u8>) -> Seq<u8> {
    permuted(substituted(expanded(half)), TRANSPOSITION@)
}

/// The round: the first half of the block is combined with what the round
/// function makes of the second half, which stays.
pub open spec fn round(block: Seq<u8>) -> Seq<u8> {
    Seq::new(
        8,
        |i: int|
            if i < 4 {
                block[i] ^ round_function(block.subrange(4, 8))[i]
            } else {
                block[i]
            },
    )
}

/// A block after the initial permutation, the round and the final
/// permutation.
pub open spec fn decrypted_block(block: Seq<u8>) -> Seq<u8> {
    permuted(round(permuted(block, INITIAL_PERMUTATION@)), FINAL_PERMUTATION@)
}

/// The value of the bit at `place` in a byte.
fn place_weight(place: usize) -> (value: u8)
    requires
        place < 8,
    ensures
        value == weight(place as int),
{
    if place == 0 {
        128
    } else if place == 1 {
        64
    } else if place == 2 {
        32
    } else if place == 3 {
        16
    } else if place == 4 {
        8
    } else if place == 5 {
        4
    } else if place == 6 {
        2
    } else {
        1
    }
}

/// Reads `width` bits of `source`, those that `table` names from `start` on.
fn gather<const S: usize, const T: usize>(source: &[u8; S], table: &[u8; T], start: usize, width: usize) -> (value:
    u8)
    requires
        width <= 8,
        start + width <= T,
        forall|i: int| 0 <= i < T ==> 1 <= #[trigger] table[i] <= 8 * S,
    ensures
        value == gathered(source@, table@, start as int, width as nat),
        value < span(width as int),
{
    let mut value: u8 = 0;
    let mut taken: usize = 0;
    while taken < width
        invariant
            taken <= width <= 8,
            start + width <= T,
            forall|i: int| 0 <= i < T ==> 1 <= #[trigger] table[i] <= 8 * S,
            value == gathered(source@, table@, start as int, taken as nat),
            value < span(taken as int),
        decreases width - taken,
    {
        let index = (table[start + taken] - 1) as usize;
        let bit = source[index / 8] / place_weight(index % 8) % 2;
        assert(bit == bit_of(source@, index as int));
        value = value * 2 + bit;
        taken += 1;
    }
    value
}

/// Permutes the bits of a block before the round.
pub fn initial_permutation(block: &[u8; 8]) -> (out: [u8; 8])
    ensures
        out@ == permuted(block@, INITIAL_PERMUTATION@),
{
    let mut out = [0u8; 8];
    let mut k: usize = 0;
    while k < 8
        invariant
            k <= 8,
            forall|i: int| 0 <= i < k ==> out@[i] == gathered(block@, INITIAL_PERMUTATION@, 8 * i, 8),
        decreases 8 - k,
    {
        out[k] = gather(block, &INITIAL_PERMUTATION, 8 * k, 8);
        k += 1;
    }
    assert(out@ =~= permuted(block@, INITIAL_PERMUTATION@));
    out
}

/// Permutes the bits of a block after the round.
pub fn final_permutation(block: &[u8; 8]) -> (out: [u8; 8])
    ensures
        out@ == permuted(block@, FINAL_PERMUTATION@),
{
    let mut out = [0u8; 8];
    let mut k: usize = 0;
    while k < 8
        invariant
            k <= 8,
            forall|i: int| 0 <= i < k ==> out@[i] == gathered(block@, FINAL_PERMUTATION@, 8 * i, 8),
        decreases 8 - k,
    {
        out[k] = gather(block, &FINAL_PERMUTATION, 8 * k, 8);
        k += 1;
    }
    assert(out@ =~= permuted(block@, FINAL_PERMUTATION@));
    out
}

/// Expands a half block to eight groups of six bits.
pub fn expand(half: &[u8; 4]) -> (groups: [u8; 8])
    ensures
        groups@ == expanded(half@),
        forall|i: int| 0 <= i < 8 ==> groups@[i] < 64,
{
    let mut groups = [0u8; 8];
    let mut g: usize = 0;
    while g < 8
        invariant
            g <= 8,
            forall|i: int| 0 <= i < g ==> groups@[i] == gathered(half@, EXPANSION@, 6 * i, 6),
            forall|i: int| 0 <= i < g ==> groups@[i] < 64,
        decreases 8 - g,
    {
        groups[g] = gather(half, &EXPANSION, 6 * g, 6);
        g += 1;
    }
    assert(groups@ =~= expanded(half@));
    groups
}

/// Looks a group of six bits up in box `index`.
fn substitution_of(index: usize, group: u8) -> (value: u8)
    requires
        index < 8,
    ensures
        value == substitution(index as int, group),
        value < 16,
{
    let six = group % 64;
    let row = (six / 32 * 2 + six % 2) as usize;
    let column = (six / 2 % 16) as usize;
    SUBSTITUTION[index][row * 16 + column]
}

/// Substitutes eight groups of six bits by a half block.
pub fn substitute(groups: &[u8; 8]) -> (half: [u8; 4])
    ensures
        half@ == substituted(groups@),
{
    let mut half = [0u8; 4];
    let mut i: usize = 0;
    while i < 4
        invariant
            i <= 4,
            forall|j: int|
                0 <= j < i ==> half@[j] == substitution(2 * j, groups@[2 * j]) * 16 + substitution(
                    2 * j + 1,
                    groups@[2 * j + 1],
                ),
        decreases 4 - i,
    {
        let high = substitution_of(2 * i, groups[2 * i]);
        let low = substitution_of(2 * i + 1, groups[2 * i + 1]);
        half[i] = high * 16 + low;
        i += 1;
    }
    assert(half@ =~= substituted(groups@));
    half
}

/// Transposes the bits of a substituted half block.
pub fn transpose(half: &[u8; 4]) -> (out: [u8; 4])
    ensures
        out@ == permuted(half@, TRANSPOSITION@),
{
    let mut out = [0u8; 4];
    let mut k: usize = 0;
    while k < 4
        invariant
            k <= 4,
            forall|i: int| 0 <= i < k ==> out@[i] == gathered(half@, TRANSPOSITION@, 8 * i, 8),
        decreases 4 - k,
    {
        out[k] = gather(half, &TRANSPOSITION, 8 * k, 8);
        k += 1;
    }
    assert(out@ =~= permuted(half@, TRANSPOSITION@));
    out
}

/// Deciphers one block. Enciphering is the same operation.
#[verifier::rlimit(30)]
pub fn decrypt_block(block: &[u8; 8]) -> (out: [u8; 8])
    ensures
        out@ == decrypted_block(block@),
{
    let mut work = initial_permutation(block);
    let ghost before = work@;
    let half = [work[4], work[5], work[6], work[7]];
    assert(half@ =~= before.subrange(4, 8));
    let mixed = transpose(&substitute(&expand(&half)));
    assert(mixed@ == round_function(before.subrange(4, 8)));
    work[0] = work[0] ^ mixed[0];
    work[1] = work[1] ^ mixed[1];
    work[2] = work[2] ^ mixed[2];
    work[3] = work[3] ^ mixed[3];
    assert(work@ =~= round(before));
    final_permutation(&work)
}

/// The byte that stands for `byte` in the last place of a shuffled block:
/// seven pairs of values change places, every other value stays.
pub open spec fn substituted_byte(byte: u8) -> u8 {
    if byte == 0x00 {
        0x2B
    } else if byte == 0x2B {
        0x00
    } else if byte == 0x6C {
        0x80
    } else if byte == 0x80 {
        0x6C
    } else if byte == 0x01 {
        0x68
    } else if byte == 0x68 {
        0x01
    } else if byte == 0x48 {
        0x77
    } else if byte == 0x77 {
        0x48
    } else if byte == 0x60 {
        0xFF
    } else if byte == 0xFF {
        0x60
    } else if byte == 0xB9 {
        0xC0
    } else if byte == 0xC0 {
        0xB9
    } else if byte == 0xFE {
        0xEB
    } else if byte == 0xEB {
        0xFE
    } else {
        byte
    }
}

/// A block with its bytes put back in order.
pub open spec fn shuffled_block(block: Seq<u8>) -> Seq<u8> {
    seq![
        block[3],
        block[4],
        block[6],
        block[0],
        block[1],
        block[2],
        block[5],
        substituted_byte(block[7]),
    ]
}

/// How an entry is enciphered.
#[derive(Debug, Clone, Copy, PartialEq, Eq, Structural)]
pub enum CipherVariant {
    /// The entry is stored in the clear.
    Clear,
    /// The first twenty blocks are enciphered.
    Partial,
    /// The first twenty blocks and every block at a multiple of the cycle
    /// are enciphered; of the others every seventh is shuffled.
    Full,
}

/// What is done to one block of an entry.
#[derive(Debug, Clone, Copy, PartialEq, Eq, Structural)]
pub enum BlockAction {
    Keep,
    Decrypt,
    Shuffle,
}

/// Number of blocks that are enciphered at the start of an enciphered entry.
pub const HEADER_BLOCKS: usize = 20;

/// How an entry with these flags is enciphered: bit 1 asks for the full
/// cipher, bit 2 for the partial one.
pub open spec fn variant_of(flags: u8) -> CipherVariant {
    if flags & 0x02 == 0x02 {
        CipherVariant::Full
    } else if flags & 0x04 == 0x04 {
        CipherVariant::Partial
    } else {
        CipherVariant::Clear
    }
}

/// Number of decimal digits of a size.
pub open spec fn digits(size: u32) -> int {
    if size < 10 {
        1
    } else if size < 100 {
        2
    } else if size < 1_000 {
        3
    } else if size < 10_000 {
        4
    } else if size < 100_000 {
        5
    } else if size < 1_000_000 {
        6
    } else if size < 10_000_000 {
        7
    } else if size < 100_000_000 {
        8
    } else if size < 1_000_000_000 {
        9
    } else {
        10
    }
}

/// Distance between two enciphered blocks behind the first twenty, by the
/// number of digits of the entry's compressed size.
pub open spec fn cycle_of(compressed_size: u32) -> int {
    let digits = digits(compressed_size);
    if digits < 3 {
        1
    } else if digits < 5 {
        digits + 1
    } else if digits < 7 {
        digits + 9
    } else {
        digits + 15
    }
}

/// Number of blocks from the twentieth up to `block`, without it, that the
/// full cipher does not encipher.
pub open spec fn plain_before(cycle: int, block: int) -> int
    decreases block,
{
    if block <= 20 {
        0
    } else {
        plain_before(cycle, block - 1) + if (block - 1) % cycle != 0 {
            1int
        } else {
            0
        }
    }
}

/// What is done to block `block` of an entry.
pub open spec fn block_action(row: FileTableRowView, block: int) -> BlockAction {
    match variant_of(row.flags) {
        CipherVariant::Clear => BlockAction::Keep,
        CipherVariant::Partial => if block < 20 {
            BlockAction::Decrypt
        } else {
            BlockAction::Keep
        },
        CipherVariant::Full => {
            let cycle = cycle_of(row.compressed_size);
            let plain = plain_before(cycle, block);
            if block < 20 || block % cycle == 0 {
                BlockAction::Decrypt
            } else if plain != 0 && plain % 7 == 0 {
                BlockAction::Shuffle
            } else {
                BlockAction::Keep
            }
        },
    }
}

/// A block after what is done to it.
pub open spec fn acted(action: BlockAction, block: Seq<u8>) -> Seq<u8> {
    match action {
        BlockAction::Keep => block,
        BlockAction::Decrypt => decrypted_block(block),
        BlockAction::Shuffle => shuffled_block(block),
    }
}

/// The stored bytes of an entry with the cipher taken off: block by block,
/// the bytes behind the last whole block as they are.
pub open spec fn deciphered(row: FileTableRowView, data: Seq<u8>) -> Seq<u8> {
    Seq::new(
        data.len(),
        |position: int|
            {
                let block = position / 8;
                if block < data.len() / 8 {
                    acted(block_action(row, block), data.subrange(8 * block, 8 * block + 8))[position
                        % 8]
                } else {
                    data[position]
                }
            },
    )
}

/// The byte that stands for `byte` in the last place of a shuffled block.
pub fn substitute_byte(byte: u8) -> (out: u8)
    ensures
        out == substituted_byte(byte),
{
    if byte == 0x00 {
        0x2B
    } else if byte == 0x2B {
        0x00
    } else if byte == 0x6C {
        0x80
    } else if byte == 0x80 {
        0x6C
    } else if byte == 0x01 {
        0x68
    } else if byte == 0x68 {
        0x01
    } else if byte == 0x48 {
        0x77
    } else if byte == 0x77 {
        0x48
    } else if byte == 0x60 {
        0xFF
    } else if byte == 0xFF {
        0x60
    } else if byte == 0xB9 {
        0xC0
    } else if byte == 0xC0 {
        0xB9
    } else if byte == 0xFE {
        0xEB
    } else if byte == 0xEB {
        0xFE
    } else {
        byte
    }
}

/// Puts the bytes of a shuffled block back in order.
pub fn shuffle_block(block: &[u8; 8]) -> (out: [u8; 8])
    ensures
        out@ == shuffled_block(block@),
{
    let out = [
        block[3],
        block[4],
        block[6],
        block[0],
        block[1],
        block[2],
        block[5],
        substitute_byte(block[7]),
    ];
    assert(out@ =~= shuffled_block(block@));
    out
}

/// How an entry is enciphered.
pub fn cipher_variant(row: &FileTableRow) -> (variant: CipherVariant)
    ensures
        variant == variant_of(row@.flags),
{
    if row.flags & 0x02 == 0x02 {
        CipherVariant::Full
    } else if row.flags & 0x04 == 0x04 {
        CipherVariant::Partial
    } else {
        CipherVariant::Clear
    }
}

/// Distance between two enciphered blocks behind the first twenty.
pub fn cipher_cycle(compressed_size: u32) -> (cycle: usize)
    ensures
        cycle == cycle_of(compressed_size),
        1 <= cycle <= 25,
{
    let digits: usize = if compressed_size < 10 {
        1
    } else if compressed_size < 100 {
        2
    } else if compressed_size < 1_000 {
        3
    } else if compressed_size < 10_000 {
        4
    } else if compressed_size < 100_000 {
        5
    } else if compressed_size < 1_000_000 {
        6
    } else if compressed_size < 10_000_000 {
        7
    } else if compressed_size < 100_000_000 {
        8
    } else if compressed_size < 1_000_000_000 {
        9
    } else {
        10
    };
    if digits < 3 {
        1
    } else if digits < 5 {
        digits + 1
    } else if digits < 7 {
        digits + 9
    } else {
        digits + 15
    }
}

/// The stored bytes of an entry with the cipher taken off its first
/// `blocks` blocks.
pub open spec fn deciphered_upto(row: FileTableRowView, data: Seq<u8>, blocks: int) -> Seq<u8> {
    Seq::new(
        data.len(),
        |position: int|
            if position / 8 < blocks {
                deciphered(row, data)[position]
            } else {
                data[position]
            },
    )
}

/// Taking the cipher off one more block changes the bytes of that block and
/// no others.
proof fn lemma_deciphered_step(row: FileTableRowView, data: Seq<u8>, block: int)
    requires
        0 <= block < data.len() / 8,
    ensures
        deciphered_upto(row, data, block).subrange(8 * block, 8 * block + 8) == data.subrange(
            8 * block,
            8 * block + 8,
        ),
        acted(block_action(row, block), data.subrange(8 * block, 8 * block + 8)).len() == 8,
        deciphered_upto(row, data, block + 1) == deciphered_upto(row, data, block).subrange(
            0,
            8 * block,
        ) + acted(block_action(row, block), data.subrange(8 * block, 8 * block + 8))
            + deciphered_upto(row, data, block).subrange(8 * block + 8, data.len() as int),
{
    let before = deciphered_upto(row, data, block);
    let stored = data.subrange(8 * block, 8 * block + 8);
    let out = acted(block_action(row, block), stored);
    let after = before.subrange(0, 8 * block) + out + before.subrange(
        8 * block + 8,
        data.len() as int,
    );
    assert(before.subrange(8 * block, 8 * block + 8) =~= stored);
    assert forall|position: int| 0 <= position < data.len() implies deciphered_upto(
        row,
        data,
        block + 1,
    )[position] == after[position] by {
        if 8 * block <= position < 8 * block + 8 {
            assert(position / 8 == block);
            assert(position % 8 == position - 8 * block);
        }
    }
    assert(deciphered_upto(row, data, block + 1) =~= after);
}

/// Once the cipher is taken off every block that is not kept as it is, it
/// is taken off the entry.
proof fn lemma_deciphered_done(row: FileTableRowView, data: Seq<u8>, blocks: int)
    requires
        0 <= blocks,
        forall|block: int|
            blocks <= block < data.len() / 8 ==> #[trigger] block_action(row, block)
                == BlockAction::Keep,
    ensures
        deciphered_upto(row, data, blocks) == deciphered(row, data),
{
    assert forall|position: int| 0 <= position < data.len() implies deciphered_upto(
        row,
        data,
        blocks,
    )[position] == deciphered(row, data)[position] by {
        let block = position / 8;
        if blocks <= block < data.len() / 8 {
            assert(block_action(row, block) == BlockAction::Keep);
            assert(data.subrange(8 * block, 8 * block + 8)[position % 8] == data[position]);
        }
    }
    assert(deciphered_upto(row, data, blocks) =~= deciphered(row, data));
}

/// Copies the eight bytes from `start` on out of `data`.
fn read_block(data: &Vec<u8>, start: usize) -> (bytes: [u8; 8])
    requires
        start + 8 <= data@.len(),
    ensures
        bytes@ == data@.subrange(start as int, start + 8),
{
    let length = data.len();
    let bytes = [
        data[start],
        data[start + 1],
        data[start + 2],
        data[start + 3],
        data[start + 4],
        data[start + 5],
        data[start + 6],
        data[start + 7],
    ];
    assert(bytes@ =~= data@.subrange(start as int, start + 8));
    bytes
}

/// Puts eight bytes in the place of those from `start` on in `data`.
fn write_block(data: &mut Vec<u8>, start: usize, bytes: &[u8; 8])
    requires
        start + 8 <= old(data)@.len(),
    ensures
        final(data)@ == old(data)@.subrange(0, start as int) + bytes@ + old(data)@.subrange(
            start + 8,
            old(data)@.len() as int,
        ),
{
    let length = data.len();
    let mut place: usize = 0;
    while place < 8
        invariant
            place <= 8,
            start + 8 <= data@.len() <= usize::MAX,
            data@.len() == old(data)@.len(),
            forall|position: int|
                0 <= position < data@.len() && !(start <= position < start + place)
                    ==> data@[position] == old(data)@[position],
            forall|position: int|
                start <= position < start + place ==> data@[position] == bytes@[position - start],
        decreases 8 - place,
    {
        data[start + place] = bytes[place];
        place += 1;
    }
    assert(data@ =~= old(data)@.subrange(0, start as int) + bytes@ + old(data)@.subrange(
        start + 8,
        old(data)@.len() as int,
    ));
}

/// Takes the cipher off the stored bytes of an entry, in place. Entries that
/// are stored in the clear are left as they are.
pub fn decrypt_file(row: &FileTableRow, data: &mut Vec<u8>)
    ensures
        final(data)@ == deciphered(row@, old(data)@),
{
    let variant = cipher_variant(row);
    let cycle = cipher_cycle(row.compressed_size);
    let blocks = data.len() / 8;
    let covered = match variant {
        CipherVariant::Clear => 0,
        CipherVariant::Partial => if blocks < HEADER_BLOCKS {
            blocks
        } else {
            HEADER_BLOCKS
        },
        CipherVariant::Full => blocks,
    };
    let mut block: usize = 0;
    let mut plain: usize = 0;
    assert(data@ =~= deciphered_upto(row@, data@, 0));
    while block < covered
        invariant
            block <= covered <= blocks,
            blocks == old(data)@.len() / 8,
            old(data)@.len() <= usize::MAX,
            variant == variant_of(row@.flags),
            cycle == cycle_of(row@.compressed_size),
            1 <= cycle,
            plain <= block,
            plain == plain_before(cycle as int, block as int),
            data@ == deciphered_upto(row@, old(data)@, block as int),
        decreases covered - block,
    {
        let start = 8 * block;
        proof {
            lemma_deciphered_step(row@, old(data)@, block as int);
        }
        let bytes = read_block(data, start);
        let enciphered = match variant {
            CipherVariant::Clear => false,
            CipherVariant::Partial => block < HEADER_BLOCKS,
            CipherVariant::Full => block < HEADER_BLOCKS || block % cycle == 0,
        };
        let shuffled = match variant {
            CipherVariant::Full => !enciphered && plain != 0 && plain % 7 == 0,
            _ => false,
        };
        if enciphered {
            assert(block_action(row@, block as int) == BlockAction::Decrypt);
            write_block(data, start, &decrypt_block(&bytes));
        } else if shuffled {
            assert(block_action(row@, block as int) == BlockAction::Shuffle);
            write_block(data, start, &shuffle_block(&bytes));
        } else {
            assert(block_action(row@, block as int) == BlockAction::Keep);
            assert(data@ =~= deciphered_upto(row@, old(data)@, block + 1));
        }
        if block >= HEADER_BLOCKS && block % cycle != 0 {
            plain += 1;
        }
        block += 1;
    }
    proof {
        lemma_deciphered_done(row@, old(data)@, covered as int);
    }
}

/// A number below 256 is the sum of its bits, each at its weight.
proof fn lemma_byte_is_its_bits(x: u8)
    by (bit_vector)
    ensures
        x == 128 * ((x / 128) % 2) + 64 * ((x / 64) % 2) + 32 * ((x / 32) % 2) + 16 * ((x / 16) % 2)
            + 8 * ((x / 8) % 2) + 4 * ((x / 4) % 2) + 2 * ((x / 2) % 2) + (x / 1) % 2,
{
}

/// In a sum of eight bits, each at its weight, every bit can be read back.
#[verifier::rlimit(30)]
proof fn lemma_bits_of_sum(v: int, b0: int, b1: int, b2: int, b3: int, b4: int, b5: int, b6: int, b7: int)
    requires
        0 <= b0 <= 1,
        0 <= b1 <= 1,
        0 <= b2 <= 1,
        0 <= b3 <= 1,
        0 <= b4 <= 1,
        0 <= b5 <= 1,
        0 <= b6 <= 1,
        0 <= b7 <= 1,
        v == 128 * b0 + 64 * b1 + 32 * b2 + 16 * b3 + 8 * b4 + 4 * b5 + 2 * b6 + b7,
    ensures
        (v / 128) % 2 == b0,
        (v / 64) % 2 == b1,
        (v / 32) % 2 == b2,
        (v / 16) % 2 == b3,
        (v / 8) % 2 == b4,
        (v / 4) % 2 == b5,
        (v / 2) % 2 == b6,
        (v / 1) % 2 == b7,
{
}

/// Two bytes with the same bits are the same byte.
pub proof fn lemma_same_bits_same_byte(x: u8, y: u8)
    requires
        forall|place: int| 0 <= place < 8 ==> (x as int / #[trigger] weight(place)) % 2 == (y as int
            / weight(place)) % 2,
    ensures
        x == y,
{
    lemma_byte_is_its_bits(x);
    lemma_byte_is_its_bits(y);
    assert(weight(0) == 128 && weight(1) == 64 && weight(2) == 32 && weight(3) == 16);
    assert(weight(4) == 8 && weight(5) == 4 && weight(6) == 2 && weight(7) == 1);
}

/// Each bit of a permuted run of bytes is the bit of the source that the
/// table names for it.
#[verifier::rlimit(30)]
pub proof fn lemma_permuted_bit(source: Seq<u8>, table: Seq<u8>, index: int)
    requires
        0 <= index < table.len(),
        table.len() % 8 == 0,
    ensures
        bit_of(permuted(source, table), index) == bit_of(source, table[index] - 1),
{
    let start = 8 * (index / 8);
    let v = gathered(source, table, start, 8);
    reveal_with_fuel(gathered, 9);
    lemma_bits_of_sum(
        v,
        bit_of(source, table[start] - 1),
        bit_of(source, table[start + 1] - 1),
        bit_of(source, table[start + 2] - 1),
        bit_of(source, table[start + 3] - 1),
        bit_of(source, table[start + 4] - 1),
        bit_of(source, table[start + 5] - 1),
        bit_of(source, table[start + 6] - 1),
        bit_of(source, table[start + 7] - 1),
    );
    assert(permuted(source, table)[index / 8] == v as u8);
    assert(0 <= v < 256);
}

/// A table that undoes another, both over the 64 bits of a block.
pub open spec fn undoes(first: Seq<u8>, second: Seq<u8>) -> bool {
    &&& first.len() == 64
    &&& second.len() == 64
    &&& forall|i: int| 0 <= i < 64 ==> 1 <= #[trigger] second[i] <= 64
    &&& forall|i: int| 0 <= i < 64 ==> first[#[trigger] second[i] - 1] == i + 1
}

/// Permuting a block by a table and then by one that undoes it gives the
/// block.
pub proof fn lemma_permutation_undone(block: Seq<u8>, first: Seq<u8>, second: Seq<u8>)
    requires
        block.len() == 8,
        undoes(first, second),
    ensures
        permuted(permuted(block, first), second) == block,
{
    let middle = permuted(block, first);
    let after = permuted(middle, second);
    assert forall|k: int| 0 <= k < 8 implies after[k] == block[k] by {
        assert forall|place: int| 0 <= place < 8 implies (after[k] as int / #[trigger] weight(
            place,
        )) % 2 == (block[k] as int / weight(place)) % 2 by {
            let index = 8 * k + place;
            lemma_permuted_bit(middle, second, index);
            let from = second[index] - 1;
            lemma_permuted_bit(block, first, from);
            assert(first[from] - 1 == index);
            assert(bit_of(after, index) == bit_of(block, index));
        }
        lemma_same_bits_same_byte(after[k], block[k]);
    }
    assert(after =~= block);
}

/// The final permutation undoes the initial one, and the initial one the
/// final one.
pub proof fn lemma_permutations_inverse()
    ensures
        undoes(INITIAL_PERMUTATION@, FINAL_PERMUTATION@),
        undoes(FINAL_PERMUTATION@, INITIAL_PERMUTATION@),
{
}

/// Combining a byte twice with the same byte gives the byte.
proof fn lemma_combined_twice(x: u8, y: u8)
    by (bit_vector)
    ensures
        (x ^ y) ^ y == x,
{
}

/// The round undoes itself.
pub proof fn lemma_round_involution(block: Seq<u8>)
    requires
        block.len() == 8,
    ensures
        round(round(block)) == block,
{
    let once = round(block);
    assert(once.subrange(4, 8) =~= block.subrange(4, 8));
    let mixed = round_function(block.subrange(4, 8));
    assert forall|i: int| 0 <= i < 8 implies round(once)[i] == block[i] by {
        if i < 4 {
            lemma_combined_twice(block[i], mixed[i]);
        }
    }
    assert(round(once) =~= block);
}

/// Deciphering a block twice gives the block: the cipher of a block is its
/// own inverse.
pub proof fn lemma_decrypt_block_involution(block: Seq<u8>)
    requires
        block.len() == 8,
    ensures
        decrypted_block(block).len() == 8,
        decrypted_block(decrypted_block(block)) == block,
{
    lemma_permutations_inverse();
    let entered = permuted(block, INITIAL_PERMUTATION@);
    let turned = round(entered);
    lemma_permutation_undone(turned, FINAL_PERMUTATION@, INITIAL_PERMUTATION@);
    lemma_round_involution(entered);
    lemma_permutation_undone(block, INITIAL_PERMUTATION@, FINAL_PERMUTATION@);
}

/// Whether no block of an entry of this length is shuffled.
pub open spec fn unshuffled(row: FileTableRowView, length: nat) -> bool {
    forall|block: int| 0 <= block < length / 8 ==> #[trigger] block_action(row, block)
        != BlockAction::Shuffle
}

/// Where no block is shuffled, taking the cipher off twice gives the stored
/// bytes back. That is so for every entry under the partial cipher.
pub proof fn lemma_deciphered_involution(row: FileTableRowView, data: Seq<u8>)
    requires
        unshuffled(row, data.len()),
    ensures
        deciphered(row, deciphered(row, data)) == data,
{
    let once = deciphered(row, data);
    let twice = deciphered(row, once);
    assert forall|position: int| 0 <= position < data.len() implies twice[position]
        == data[position] by {
        let block = position / 8;
        if block < data.len() / 8 {
            let stored = data.subrange(8 * block, 8 * block + 8);
            let action = block_action(row, block);
            lemma_decrypt_block_involution(stored);
            assert(once.subrange(8 * block, 8 * block + 8) =~= acted(action, stored)) by {
                assert forall|i: int| 0 <= i < 8 implies once[8 * block + i] == acted(
                    action,
                    stored,
                )[i] by {
                    assert((8 * block + i) / 8 == block);
                    assert((8 * block + i) % 8 == i);
                }
            }
            assert(acted(action, acted(action, stored)) == stored);
            assert(stored[position % 8] == data[position]);
        }
    }
    assert(twice =~= data);
}

/// Under the partial cipher no block is shuffled.
pub proof fn lemma_partial_unshuffled(row: FileTableRowView, length: nat)
    requires
        variant_of(row.flags) != CipherVariant::Full,
    ensures
        unshuffled(row, length),
{
}

} // verus!
