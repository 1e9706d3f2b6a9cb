//! When a hash is low enough for a target.
//!
//! A target packs a bound on 32-byte hashes into 32 bits: the high byte counts the bytes that
//! must be zero, and the three low bytes are the bound on the three bytes after them.

use vstd::arithmetic::power::{lemma_pow0, lemma_pow1, lemma_pow_adds, pow};
use vstd::prelude::*;

verus! {

/// The number that bytes write, most significant byte first.
pub open spec fn big_endian(bytes: Seq<u8>) -> int
    decreases bytes.len(),
{
    if bytes.len() == 0 {
        0
    } else {
        256 * big_endian(bytes.drop_last()) + bytes.last()
    }
}

/// How many leading zero bytes a target asks for.
pub open spec fn target_zeros(target: u32) -> int {
    target as int / 0x100_0000
}

/// The bound on the three bytes after the leading zeros.
pub open spec fn target_postfix(target: u32) -> int {
    target as int % 0x100_0000
}

/// The bound fits into a 32-byte hash.
pub open spec fn valid_target(target: u32) -> bool {
    target_zeros(target) <= 29
}

/// The highest number that a hash may write to meet the target.
pub open spec fn target_value(target: u32) -> int {
    target_postfix(target) * pow(256, (29 - target_zeros(target)) as nat)
}

/// The hash, read as a number, is not above the target.
pub open spec fn meets(hash: Seq<u8>, target: u32) -> bool {
    big_endian(hash) <= target_value(target)
}

/// The byte of the target at place `i`, where the target is written as 32 bytes.
spec fn target_byte(target: u32, i: int) -> u8 {
    let zeros = target_zeros(target);
    let postfix = target_postfix(target);
    if i == zeros {
        (postfix / 0x1_0000) as u8
    } else if i == zeros + 1 {
        (postfix / 0x100 % 0x100) as u8
    } else if i == zeros + 2 {
        (postfix % 0x100) as u8
    } else {
        0
    }
}

spec fn target_bytes(target: u32) -> Seq<u8> {
    Seq::new(32, |i: int| target_byte(target, i))
}

/// A number written in `n` bytes is at least zero and below 256 to the `n`.
proof fn lemma_big_endian_bounds(bytes: Seq<u8>)
    ensures
        0 <= big_endian(bytes) < pow(256, bytes.len()),
    decreases bytes.len(),
{
    if bytes.len() == 0 {
        lemma_pow0(256);
    } else {
        let front = bytes.drop_last();
        lemma_big_endian_bounds(front);
        lemma_pow1(256);
        lemma_pow_adds(256, front.len(), 1);
    }
}

/// The number that two runs of bytes write together.
proof fn lemma_big_endian_concat(a: Seq<u8>, b: Seq<u8>)
    ensures
        big_endian(a + b) == big_endian(a) * pow(256, b.len()) + big_endian(b),
    decreases b.len(),
{
    if b.len() == 0 {
        assert(a + b =~= a);
        lemma_pow0(256);
    } else {
        let front = b.drop_last();
        assert((a + b).drop_last() =~= a + front);
        lemma_big_endian_concat(a, front);
        lemma_pow1(256);
        lemma_pow_adds(256, front.len(), 1);
        let p = pow(256, front.len());
        let x = big_endian(a);
        assert(256 * (x * p) == x * (p * 256)) by (nonlinear_arith);
    }
}

/// Zero bytes in front do not count.
proof fn lemma_big_endian_zeros(zeros: Seq<u8>)
    requires
        forall|i: int| 0 <= i < zeros.len() ==> zeros[i] == 0,
    ensures
        big_endian(zeros) == 0,
    decreases zeros.len(),
{
    if zeros.len() > 0 {
        lemma_big_endian_zeros(zeros.drop_last());
    }
}

/// Of two runs of one length that first differ at `i`, the one with the lower byte there writes
/// the lower number.
proof fn lemma_first_difference_decides(a: Seq<u8>, b: Seq<u8>, i: int)
    requires
        a.len() == b.len(),
        0 <= i < a.len(),
        forall|j: int| 0 <= j < i ==> a[j] == b[j],
        a[i] < b[i],
    ensures
        big_endian(a) < big_endian(b),
{
    let n = (a.len() - i - 1) as nat;
    let tail_a = a.skip(i + 1);
    let tail_b = b.skip(i + 1);
    let head_a = a.take(i + 1);
    let head_b = b.take(i + 1);
    assert(a =~= head_a + tail_a);
    assert(b =~= head_b + tail_b);
    lemma_big_endian_concat(head_a, tail_a);
    lemma_big_endian_concat(head_b, tail_b);
    lemma_big_endian_bounds(tail_a);
    lemma_big_endian_bounds(tail_b);
    assert(head_a.drop_last() =~= head_b.drop_last());
    let x = big_endian(head_a);
    let y = big_endian(head_b);
    let p = pow(256, n);
    assert(x + 1 <= y);
    assert((x + 1) * p <= y * p) by (nonlinear_arith)
        requires
            x + 1 <= y,
            p >= 0,
    ;
    assert((x + 1) * p == x * p + p) by (nonlinear_arith);
}

/// The target written as 32 bytes writes the target's value.
proof fn lemma_target_bytes(target: u32)
    requires
        valid_target(target),
    ensures
        big_endian(target_bytes(target)) == target_value(target),
{
    let z = target_zeros(target);
    let postfix = target_postfix(target);
    let all = target_bytes(target);
    let head = all.take(z);
    let mid = all.subrange(z, z + 3);
    let tail = all.skip(z + 3);
    assert(all =~= (head + mid) + tail);
    lemma_big_endian_concat(head + mid, tail);
    lemma_big_endian_concat(head, mid);
    lemma_big_endian_zeros(head);
    lemma_big_endian_zeros(tail);
    reveal_with_fuel(big_endian, 4);
    let b0 = postfix / 0x1_0000;
    let b1 = postfix / 0x100 % 0x100;
    let b2 = postfix % 0x100;
    assert(mid[0] == b0 && mid[1] == b1 && mid[2] == b2);
    assert(big_endian(mid) == 0x1_0000 * b0 + 0x100 * b1 + b2);
    assert(0x1_0000 * b0 + 0x100 * b1 + b2 == postfix);
    assert(tail.len() == 29 - z);
}

/// Whether a target is a bound on 32-byte hashes.
pub fn is_valid_target(target: u32) -> (r: bool)
    ensures
        r == valid_target(target),
{
    target / 0x100_0000 <= 29
}

/// Whether a hash meets a target.
pub fn meets_difficulty(hash: &[u8; 32], target: u32) -> (r: bool)
    requires
        valid_target(target),
    ensures
        r == meets(hash@, target),
{
    let zeros: usize = (target / 0x100_0000) as usize;
    let postfix: u32 = target % 0x100_0000;
    let ghost bound = target_bytes(target);
    proof {
        lemma_target_bytes(target);
    }
    let mut i: usize = 0;
    while i < 32
        invariant
            i <= 32,
            zeros == target_zeros(target),
            postfix == target_postfix(target),
            bound == target_bytes(target),
            big_endian(bound) == target_value(target),
            valid_target(target),
            forall|j: int| 0 <= j < i ==> hash@[j] == #[trigger] bound[j],
        decreases 32 - i,
    {
        let b: u8 = if i == zeros {
            (postfix / 0x1_0000) as u8
        } else if i == zeros + 1 {
            (postfix / 0x100 % 0x100) as u8
        } else if i == zeros + 2 {
            (postfix % 0x100) as u8
        } else {
            0
        };
        assert(b == bound[i as int]);
        if hash[i] > b {
            proof {
                lemma_first_difference_decides(bound, hash@, i as int);
            }
            return false;
        }
        if hash[i] < b {
            proof {
                lemma_first_difference_decides(hash@, bound, i as int);
            }
            return true;
        }
        i += 1;
    }
    assert(hash@ =~= bound);
    true
}

/// A hash that meets a target meets every target that is not lower: with a share target that is
/// not lower than the block target, each block found is also a share.
pub proof fn law_easier_target_is_met(hash: Seq<u8>, hard: u32, easy: u32)
    requires
        target_value(hard) <= target_value(easy),
        meets(hash, hard),
    ensures
        meets(hash, easy),
{
}

/// One more leading zero byte makes a target 256 times lower.
pub proof fn law_zero_byte_scales(target: u32)
    requires
        target_zeros(target) < 29,
    ensures
        target_value(target) == 256 * target_value((target + 0x100_0000) as u32),
{
    let next = (target + 0x100_0000) as u32;
    let n = (28 - target_zeros(target)) as nat;
    assert(target_zeros(next) == target_zeros(target) + 1);
    assert(target_postfix(next) == target_postfix(target));
    lemma_pow1(256);
    lemma_pow_adds(256, n, 1);
    let p = target_postfix(target);
    let q = pow(256, n);
    assert(p * (q * 256) == 256 * (p * q)) by (nonlinear_arith);
}

proof fn lemma_first_difference(a: Seq<u8>, b: Seq<u8>) -> (i: int)
    requires
        a.len() == b.len(),
        a != b,
    ensures
        0 <= i < a.len(),
        a[i] != b[i],
        forall|j: int| 0 <= j < i ==> a[j] == b[j],
    decreases a.len(),
{
    let front_a = a.drop_last();
    let front_b = b.drop_last();
    if a.len() == 0 {
        assert(a =~= b);
        0
    } else if front_a == front_b {
        assert forall|j: int| 0 <= j < a.len() - 1 implies a[j] == b[j] by {
            assert(front_a[j] == front_b[j]);
        }
        assert(a[a.len() - 1] != b[a.len() - 1]) by {
            if a[a.len() - 1] == b[a.len() - 1] {
                assert(a =~= b);
            }
        }
        a.len() - 1
    } else {
        let i = lemma_first_difference(front_a, front_b);
        assert(a[i] == front_a[i] && b[i] == front_b[i]);
        assert forall|j: int| 0 <= j < i implies a[j] == b[j] by {
            assert(front_a[j] == front_b[j]);
        }
        i
    }
}

/// A target bounds 32-byte hashes exactly if its three significant bytes lie within them.
pub proof fn law_valid_targets(target: u32)
    ensures
        valid_target(target) <==> target < 0x1e00_0000,
{
}

/// A hash meets a target exactly if it is the target written out as 32 bytes, or is lower at the
/// first byte in which the two differ. `bound` is the target written out: as many zero bytes as
/// its high byte says, its three low bytes, and zero bytes to the end.
pub proof fn law_hash_is_held_against_target_bytes(hash: Seq<u8>, target: u32, bound: Seq<u8>)
    requires
        target < 0x1e00_0000,
        hash.len() == 32,
        bound.len() == 32,
        forall|i: int|
            0 <= i < 32 ==> #[trigger] bound[i] == if i == target / 0x100_0000 {
                target / 0x1_0000 % 0x100
            } else if i == target / 0x100_0000 + 1 {
                target / 0x100 % 0x100
            } else if i == target / 0x100_0000 + 2 {
                target % 0x100
            } else {
                0
            },
    ensures
        meets(hash, target) <==> hash == bound || exists|i: int|
            0 <= i < 32 && #[trigger] hash[i] < bound[i] && forall|j: int|
                0 <= j < i ==> hash[j] == bound[j],
{
    assert(bound =~= target_bytes(target)) by {
        assert(target / 0x1_0000 % 0x100 == target % 0x100_0000 / 0x1_0000) by (bit_vector);
        assert(target / 0x100 % 0x100 == target % 0x100_0000 / 0x100 % 0x100) by (bit_vector);
        assert(target % 0x100 == target % 0x100_0000 % 0x100) by (bit_vector);
        assert forall|i: int| 0 <= i < 32 implies #[trigger] bound[i] == target_byte(target, i) by {
        }
    }
    lemma_target_bytes(target);
    lemma_order_of_hashes(hash, bound);
}

/// Of two runs of one length, the one writes no higher number than the other exactly if they are
/// equal or it is lower where they first differ.
proof fn lemma_order_of_hashes(hash: Seq<u8>, bound: Seq<u8>)
    requires
        hash.len() == 32,
        bound.len() == 32,
    ensures
        big_endian(hash) <= big_endian(bound) <==> hash == bound || exists|i: int|
            0 <= i < 32 && #[trigger] hash[i] < bound[i] && forall|j: int|
                0 <= j < i ==> hash[j] == bound[j],
{
    if hash != bound {
        let i = lemma_first_difference(hash, bound);
        if hash[i] < bound[i] {
            lemma_first_difference_decides(hash, bound, i);
        } else {
            lemma_first_difference_decides(bound, hash, i);
            assert forall|k: int| 0 <= k < 32 && #[trigger] hash[k] < bound[k] implies exists|j: int|
                0 <= j < k && hash[j] != bound[j] by {
                assert(hash[i] != bound[i]);
                if k < i {
                    assert(hash[k] == bound[k]);
                }
            }
        }
    }
}

} // verus!
