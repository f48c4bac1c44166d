use korangar::formats::FileTableRow;
use korangar::mixcrypt::{
    cipher_cycle, cipher_variant, decrypt_block, decrypt_file, expand, final_permutation,
    initial_permutation, shuffle_block, substitute, substitute_byte, transpose, CipherVariant,
    EXPANSION, FINAL_PERMUTATION, INITIAL_PERMUTATION, SUBSTITUTION, TRANSPOSITION,
};

const PERMUTED_CHOICE_1: [usize; 56] = [
    57, 49, 41, 33, 25, 17, 9, 1, 58, 50, 42, 34, 26, 18, 10, 2, 59, 51, 43, 35, 27, 19, 11, 3,
    60, 52, 44, 36, 63, 55, 47, 39, 31, 23, 15, 7, 62, 54, 46, 38, 30, 22, 14, 6, 61, 53, 45, 37,
    29, 21, 13, 5, 28, 20, 12, 4,
];

const PERMUTED_CHOICE_2: [usize; 48] = [
    14, 17, 11, 24, 1, 5, 3, 28, 15, 6, 21, 10, 23, 19, 12, 4, 26, 8, 16, 7, 27, 20, 13, 2, 41,
    52, 31, 37, 47, 55, 30, 40, 51, 45, 33, 48, 44, 49, 39, 56, 34, 53, 46, 42, 50, 36, 29, 32,
];

const SHIFTS: [usize; 16] = [1, 1, 2, 2, 2, 2, 2, 2, 1, 2, 2, 2, 2, 2, 2, 1];

fn bits_of(bytes: &[u8]) -> Vec<u8> {
    bytes.iter().flat_map(|byte| (0..8).map(move |place| (byte >> (7 - place)) & 1)).collect()
}

/// The sixteen round keys of DES for `key`, each as eight groups of six bits.
fn round_keys(key: [u8; 8]) -> Vec<[u8; 8]> {
    let key_bits = bits_of(&key);
    let chosen: Vec<u8> = PERMUTED_CHOICE_1.iter().map(|&bit| key_bits[bit - 1]).collect();
    let (mut left, mut right) = (chosen[..28].to_vec(), chosen[28..].to_vec());
    let mut keys = Vec::new();
    for shift in SHIFTS {
        left.rotate_left(shift);
        right.rotate_left(shift);
        let both: Vec<u8> = left.iter().chain(right.iter()).copied().collect();
        let mut groups = [0u8; 8];
        for (index, &bit) in PERMUTED_CHOICE_2.iter().enumerate() {
            groups[index / 6] = groups[index / 6] * 2 + both[bit - 1];
        }
        keys.push(groups);
    }
    keys
}

/// DES over the library's permutations, expansion, boxes and transposition.
fn des_encrypt(key: [u8; 8], block: [u8; 8]) -> [u8; 8] {
    let entered = initial_permutation(&block);
    let mut left = [entered[0], entered[1], entered[2], entered[3]];
    let mut right = [entered[4], entered[5], entered[6], entered[7]];
    for round_key in round_keys(key) {
        let mut groups = expand(&right);
        for (group, key_group) in groups.iter_mut().zip(round_key) {
            *group ^= key_group;
        }
        let mixed = transpose(&substitute(&groups));
        let next = [left[0] ^ mixed[0], left[1] ^ mixed[1], left[2] ^ mixed[2], left[3] ^ mixed[3]];
        left = right;
        right = next;
    }
    final_permutation(&[right[0], right[1], right[2], right[3], left[0], left[1], left[2], left[3]])
}

fn row(flags: u8, compressed_size: u32) -> FileTableRow {
    FileTableRow {
        file_name: String::from("a"),
        compressed_size,
        compressed_size_aligned: compressed_size.div_ceil(8) * 8,
        uncompressed_size: 0,
        flags,
        offset: 0,
    }
}

fn sample(length: usize) -> Vec<u8> {
    (0..length).map(|index| (index * 37 + 11) as u8).collect()
}

#[test]
fn tables_make_des() {
    let key = [0x13, 0x34, 0x57, 0x79, 0x9B, 0xBC, 0xDF, 0xF1];
    let plain = [0x01, 0x23, 0x45, 0x67, 0x89, 0xAB, 0xCD, 0xEF];
    assert_eq!(des_encrypt(key, plain), [0x85, 0xE8, 0x13, 0x54, 0x0F, 0x0A, 0xB4, 0x05]);

    let key = [0x01; 8];
    let plain = [0x80, 0, 0, 0, 0, 0, 0, 0];
    assert_eq!(des_encrypt(key, plain), [0x95, 0xF8, 0xA5, 0xE5, 0xDD, 0x31, 0xD9, 0x00]);
}

#[test]
fn permutation_tables_name_each_bit_once() {
    for table in [INITIAL_PERMUTATION, FINAL_PERMUTATION] {
        let mut sorted = table.to_vec();
        sorted.sort();
        assert_eq!(sorted, (1..=64).collect::<Vec<u8>>());
    }
    let mut sorted = TRANSPOSITION.to_vec();
    sorted.sort();
    assert_eq!(sorted, (1..=32).collect::<Vec<u8>>());
    for index in 0..64 {
        assert_eq!(INITIAL_PERMUTATION[FINAL_PERMUTATION[index] as usize - 1] as usize, index + 1);
    }
    for bit in 1..=32u8 {
        let count = EXPANSION.iter().filter(|&&entry| entry == bit).count();
        assert!(count == 1 || count == 2);
    }
}

#[test]
fn every_row_of_a_box_holds_each_value_once() {
    for substitution_box in SUBSTITUTION {
        for row in substitution_box.chunks(16) {
            let mut sorted = row.to_vec();
            sorted.sort();
            assert_eq!(sorted, (0..16).collect::<Vec<u8>>());
        }
    }
}

#[test]
fn permutations_move_single_bits() {
    // Bit 58 of the block becomes the first bit, bit 7 the last.
    assert_eq!(initial_permutation(&[0, 0, 0, 0, 0, 0, 0, 0x40]), [0x80, 0, 0, 0, 0, 0, 0, 0]);
    assert_eq!(initial_permutation(&[0x02, 0, 0, 0, 0, 0, 0, 0]), [0, 0, 0, 0, 0, 0, 0, 0x01]);
    assert_eq!(final_permutation(&[0x80, 0, 0, 0, 0, 0, 0, 0]), [0, 0, 0, 0, 0, 0, 0, 0x40]);
    assert_eq!(transpose(&[0, 0x01, 0, 0]), [0x80, 0, 0, 0]);
    assert_eq!(initial_permutation(&[0xFF; 8]), [0xFF; 8]);
    assert_eq!(initial_permutation(&[0; 8]), [0; 8]);
}

#[test]
fn expansion_repeats_the_edge_bits() {
    assert_eq!(expand(&[0, 0, 0, 0]), [0; 8]);
    assert_eq!(expand(&[0xFF; 4]), [0x3F; 8]);
    assert_eq!(expand(&[0x80, 0, 0, 0]), [0x10, 0, 0, 0, 0, 0, 0, 0x01]);
    assert_eq!(expand(&[0, 0, 0, 0x01]), [0x20, 0, 0, 0, 0, 0, 0, 0x02]);
    assert_eq!(expand(&[0x18, 0, 0, 0]), [0x03, 0x30, 0, 0, 0, 0, 0, 0]);
}

#[test]
fn substitution_reads_row_and_column() {
    assert_eq!(substitute(&[0; 8]), [0xEF, 0xA7, 0x2C, 0x4D]);
    assert_eq!(substitute(&[1, 0, 0, 0, 0, 0, 0, 0]), [0x0F, 0xA7, 0x2C, 0x4D]);
    assert_eq!(substitute(&[2, 0, 0, 0, 0, 0, 0, 0]), [0x4F, 0xA7, 0x2C, 0x4D]);
    assert_eq!(substitute(&[0x3F; 8]), [0xD9, 0xCE, 0x3D, 0xCB]);
    // Bits above the sixth are not looked at.
    assert_eq!(substitute(&[0x40; 8]), substitute(&[0; 8]));
    assert_eq!(substitute(&[0xFF; 8]), substitute(&[0x3F; 8]));
}

#[test]
fn deciphering_a_block_twice_gives_the_block() {
    for seed in 0..64u32 {
        let mut block = [0u8; 8];
        for (index, byte) in block.iter_mut().enumerate() {
            *byte = (seed.wrapping_mul(0x9E37_79B9) >> (index * 3)) as u8;
        }
        let once = decrypt_block(&block);
        assert_eq!(decrypt_block(&once), block);
    }
}

#[test]
fn a_block_is_one_round_without_a_key() {
    let block = [0x01, 0x23, 0x45, 0x67, 0x89, 0xAB, 0xCD, 0xEF];
    let entered = initial_permutation(&block);
    let right = [entered[4], entered[5], entered[6], entered[7]];
    let mixed = transpose(&substitute(&expand(&right)));
    let turned = [
        entered[0] ^ mixed[0],
        entered[1] ^ mixed[1],
        entered[2] ^ mixed[2],
        entered[3] ^ mixed[3],
        entered[4],
        entered[5],
        entered[6],
        entered[7],
    ];
    assert_eq!(decrypt_block(&block), final_permutation(&turned));
    assert_ne!(decrypt_block(&block), block);
}

#[test]
fn shuffle_puts_bytes_back_in_order() {
    assert_eq!(shuffle_block(&[10, 11, 12, 13, 14, 15, 16, 17]), [13, 14, 16, 10, 11, 12, 15, 17]);
    assert_eq!(shuffle_block(&[0, 1, 2, 3, 4, 5, 6, 0x2B])[7], 0x00);
}

#[test]
fn seven_pairs_of_bytes_change_places() {
    let pairs = [(0x00, 0x2B), (0x6C, 0x80), (0x01, 0x68), (0x48, 0x77), (0x60, 0xFF), (0xB9, 0xC0), (0xFE, 0xEB)];
    for (one, other) in pairs {
        assert_eq!(substitute_byte(one), other);
        assert_eq!(substitute_byte(other), one);
    }
    let moved = (0..=255u8).filter(|&byte| substitute_byte(byte) != byte).count();
    assert_eq!(moved, 14);
    for byte in 0..=255u8 {
        assert_eq!(substitute_byte(substitute_byte(byte)), byte);
    }
}

#[test]
fn flags_pick_the_cipher() {
    assert_eq!(cipher_variant(&row(0x00, 10)), CipherVariant::Clear);
    assert_eq!(cipher_variant(&row(0x01, 10)), CipherVariant::Clear);
    assert_eq!(cipher_variant(&row(0x03, 10)), CipherVariant::Full);
    assert_eq!(cipher_variant(&row(0x05, 10)), CipherVariant::Partial);
    assert_eq!(cipher_variant(&row(0x04, 10)), CipherVariant::Partial);
    assert_eq!(cipher_variant(&row(0x07, 10)), CipherVariant::Full);
    assert_eq!(cipher_variant(&row(0x09, 10)), CipherVariant::Clear);
}

#[test]
fn cycle_grows_with_the_digits_of_the_size() {
    let expected = [
        (0, 1), (9, 1), (10, 1), (99, 1), (100, 4), (999, 4), (1_000, 5), (9_999, 5),
        (10_000, 14), (99_999, 14), (100_000, 15), (999_999, 15), (1_000_000, 22),
        (9_999_999, 22), (10_000_000, 23), (99_999_999, 23), (100_000_000, 24),
        (999_999_999, 24), (1_000_000_000, 25), (u32::MAX, 25),
    ];
    for (size, cycle) in expected {
        assert_eq!(cipher_cycle(size), cycle, "size {size}");
    }
}

#[test]
fn clear_entries_are_left_as_they_are() {
    let mut data = sample(333);
    decrypt_file(&row(0x01, 333), &mut data);
    assert_eq!(data, sample(333));
}

#[test]
fn partial_cipher_covers_twenty_blocks() {
    let stored = sample(8 * 25 + 5);
    let mut data = stored.clone();
    decrypt_file(&row(0x05, 205), &mut data);

    for block in 0..20 {
        let bytes: [u8; 8] = stored[8 * block..8 * block + 8].try_into().unwrap();
        assert_eq!(&data[8 * block..8 * block + 8], &decrypt_block(&bytes));
    }
    assert_eq!(&data[160..], &stored[160..]);

    decrypt_file(&row(0x05, 205), &mut data);
    assert_eq!(data, stored);
}

#[test]
fn partial_cipher_on_a_short_entry_covers_its_whole_blocks() {
    let stored = sample(21);
    let mut data = stored.clone();
    decrypt_file(&row(0x04, 21), &mut data);

    let first: [u8; 8] = stored[0..8].try_into().unwrap();
    let second: [u8; 8] = stored[8..16].try_into().unwrap();
    assert_eq!(&data[0..8], &decrypt_block(&first));
    assert_eq!(&data[8..16], &decrypt_block(&second));
    assert_eq!(&data[16..], &stored[16..]);

    let mut short = sample(7);
    decrypt_file(&row(0x04, 7), &mut short);
    assert_eq!(short, sample(7));
    let mut empty = Vec::new();
    decrypt_file(&row(0x03, 0), &mut empty);
    assert!(empty.is_empty());
}

#[test]
fn full_cipher_of_a_small_entry_covers_every_block() {
    // Sizes of one or two digits have cycle 1.
    let stored = sample(8 * 30);
    let mut data = stored.clone();
    decrypt_file(&row(0x03, 99), &mut data);

    for block in 0..30 {
        let bytes: [u8; 8] = stored[8 * block..8 * block + 8].try_into().unwrap();
        assert_eq!(&data[8 * block..8 * block + 8], &decrypt_block(&bytes), "block {block}");
    }
}

#[test]
fn full_cipher_shuffles_every_seventh_plain_block() {
    // Three digits: cycle 4. Behind block 20 the blocks 20, 24, 28, .. are
    // enciphered; of the others the eighth, fifteenth, .. are shuffled.
    let stored = sample(8 * 48);
    let mut data = stored.clone();
    decrypt_file(&row(0x03, 384), &mut data);

    let mut plain = 0;
    let mut shuffled = Vec::new();
    for block in 0..48 {
        let bytes: [u8; 8] = stored[8 * block..8 * block + 8].try_into().unwrap();
        let out = &data[8 * block..8 * block + 8];
        if block < 20 || block % 4 == 0 {
            assert_eq!(out, &decrypt_block(&bytes), "block {block}");
        } else {
            if plain != 0 && plain % 7 == 0 {
                assert_eq!(out, &shuffle_block(&bytes), "block {block}");
                shuffled.push(block);
            } else {
                assert_eq!(out, &bytes, "block {block}");
            }
            plain += 1;
        }
    }
    assert_eq!(shuffled, vec![30, 39]);
}
