use uzi_pool::difficulty::{is_valid_target, meets_difficulty};

fn hash(bytes: &[u8]) -> [u8; 32] {
    let mut h = [0u8; 32];
    h[..bytes.len()].copy_from_slice(bytes);
    h
}

#[test]
fn bound_itself_meets_target() {
    assert!(meets_difficulty(&hash(&[0x00, 0x1f, 0xff, 0xff]), 0x011fffff));
    assert!(meets_difficulty(&hash(&[0x1f, 0xff, 0xff]), 0x001fffff));
}

#[test]
fn one_above_the_bound_misses() {
    let mut h = hash(&[0x00, 0x1f, 0xff, 0xff]);
    h[31] = 1;
    assert!(!meets_difficulty(&h, 0x011fffff));
    assert!(!meets_difficulty(&hash(&[0x00, 0x20]), 0x011fffff));
    assert!(!meets_difficulty(&hash(&[0x01]), 0x011fffff));
}

#[test]
fn below_the_bound_meets_whatever_follows() {
    let mut h = [0xff; 32];
    h[0] = 0;
    h[1] = 0x1f;
    h[2] = 0xff;
    h[3] = 0xfe;
    assert!(meets_difficulty(&h, 0x011fffff));
}

#[test]
fn zero_hash_meets_everything() {
    for zeros in 0..30u32 {
        assert!(meets_difficulty(&[0; 32], zeros << 24));
        assert!(meets_difficulty(&[0; 32], (zeros << 24) | 0xffffff));
    }
}

#[test]
fn last_three_bytes_can_be_the_bound() {
    let mut h = [0; 32];
    h[31] = 5;
    assert!(meets_difficulty(&h, (29 << 24) | 5));
    assert!(!meets_difficulty(&h, (29 << 24) | 4));
}

#[test]
fn postfix_zero_leaves_only_zero() {
    let mut h = [0; 32];
    h[31] = 1;
    assert!(!meets_difficulty(&h, 0));
}

#[test]
fn easier_target_is_met_by_what_meets_the_harder() {
    let hard = 0x020000ff;
    let easy = 0x0200ffff;
    let h = hash(&[0, 0, 0, 0, 0x10]);
    assert!(meets_difficulty(&h, hard));
    assert!(meets_difficulty(&h, easy));
    let h = hash(&[0, 0, 0, 0x10]);
    assert!(!meets_difficulty(&h, hard));
    assert!(meets_difficulty(&h, easy));
}

#[test]
fn another_zero_byte_shifts_the_bound() {
    let h = hash(&[0, 0, 0x12, 0x34, 0x56]);
    assert!(meets_difficulty(&h, 0x02123456));
    assert!(meets_difficulty(&h, 0x01123456));
    assert!(!meets_difficulty(&h, 0x03123456));
}

#[test]
fn targets_leave_room_for_three_bytes() {
    assert!(is_valid_target(0));
    assert!(is_valid_target(0x1dffffff));
    assert!(!is_valid_target(0x1e000000));
    assert!(!is_valid_target(u32::MAX));
}
