//! What the digests of content tell apart.

use vstd::bytes::{lemma_auto_spec_u64_to_from_le_bytes, spec_u64_to_le_bytes};
use vstd::prelude::*;

use crate::artifact::{content_digest, lane_digest, lane_multiplier, lane_of, lane_step, turned};
use crate::context::{context_digest, lanes_of, multiplier, stirred};

verus! {

// ---------------------------------------------------------------------------
// Multiplying.

/// A product with an odd number, of which `inverse` undoes the multiplication,
/// comes from one factor only.
proof fn products_come_from_one_factor(a: u64, b: u64, m: u64, inverse: u64)
    requires
        (m * inverse) % 0x1_0000_0000_0000_0000 == 1,
        a.wrapping_mul(m) == b.wrapping_mul(m),
    ensures
        a == b,
{
    let whole = 0x1_0000_0000_0000_0000int;
    let (x, y, k, n) = (a as int, b as int, m as int, inverse as int);
    assert((x * k) % whole == (y * k) % whole);
    let q = (x * k) / whole - (y * k) / whole;
    assert(x * k - y * k == q * whole) by (nonlinear_arith)
        requires
            (x * k) % whole == (y * k) % whole,
            q == (x * k) / whole - (y * k) / whole,
            whole == 0x1_0000_0000_0000_0000int,
    ;
    let r = (k * n) / whole;
    assert(k * n == r * whole + 1) by (nonlinear_arith)
        requires
            (k * n) % whole == 1,
            r == (k * n) / whole,
            whole == 0x1_0000_0000_0000_0000int,
    ;
    let t = q * n - (x - y) * r;
    assert(x - y == t * whole) by (nonlinear_arith)
        requires
            x * k - y * k == q * whole,
            k * n == r * whole + 1,
            t == q * n - (x - y) * r,
    ;
    assert(t == 0) by (nonlinear_arith)
        requires
            x - y == t * whole,
            whole == 0x1_0000_0000_0000_0000int,
            -whole < x - y < whole,
    ;
    assert(x - y == 0) by (nonlinear_arith)
        requires
            x - y == t * whole,
            t == 0,
    ;
}

proof fn multipliers_are_undone(lane: u64, a: u64, b: u64)
    requires
        lane < 4,
        a.wrapping_mul(lane_multiplier(lane)) == b.wrapping_mul(lane_multiplier(lane)),
    ensures
        a == b,
{
    if lane == 0 {
        products_come_from_one_factor(a, b, lane_multiplier(lane), 0xce965057aff6957b);
    } else if lane == 1 {
        products_come_from_one_factor(a, b, lane_multiplier(lane), 0xcbfcb0c023d9e879);
    } else if lane == 2 {
        products_come_from_one_factor(a, b, lane_multiplier(lane), 0x31d1864db95781e7);
    } else {
        products_come_from_one_factor(a, b, lane_multiplier(lane), 0x98d2c53ed74ecf11);
    }
}

proof fn masks_come_off(a: u64, b: u64, mask: u64)
    requires
        a ^ mask == b ^ mask,
    ensures
        a == b,
{
    assert(a ^ mask == b ^ mask ==> a == b) by (bit_vector);
}

proof fn folds_come_off(a: u64, b: u64)
    requires
        a ^ (a >> 29) == b ^ (b >> 29),
    ensures
        a == b,
{
    assert(a ^ (a >> 29) == b ^ (b >> 29) ==> a == b) by (bit_vector);
}

// ---------------------------------------------------------------------------
// Digests of artifacts.

proof fn steps_keep_values_apart(a: u64, b: u64, byte: u8, position: u64, lane: u64)
    requires
        lane < 4,
        lane_step(a, byte, position, lane) == lane_step(b, byte, position, lane),
    ensures
        a == b,
{
    let mask = (byte as u64).wrapping_add(turned(position, (lane * 7) as u64));
    let m = lane_multiplier(lane);
    folds_come_off((a ^ mask).wrapping_mul(m), (b ^ mask).wrapping_mul(m));
    multipliers_are_undone(lane, a ^ mask, b ^ mask);
    masks_come_off(a, b, mask);
}

proof fn steps_keep_bytes_apart(value: u64, a: u8, b: u8, position: u64, lane: u64)
    requires
        lane < 4,
        lane_step(value, a, position, lane) == lane_step(value, b, position, lane),
    ensures
        a == b,
{
    let by = turned(position, (lane * 7) as u64);
    let x = (a as u64).wrapping_add(by);
    let y = (b as u64).wrapping_add(by);
    let m = lane_multiplier(lane);
    folds_come_off((value ^ x).wrapping_mul(m), (value ^ y).wrapping_mul(m));
    multipliers_are_undone(lane, value ^ x, value ^ y);
    assert(value ^ x == value ^ y ==> x == y) by (bit_vector);
}

proof fn lanes_keep_contents_apart(left: Seq<u8>, right: Seq<u8>, place: int, lane: u64)
    requires
        lane < 4,
        left.len() == right.len(),
        0 <= place < left.len(),
        left[place] != right[place],
        forall|i: int| 0 <= i < left.len() && i != place ==> #[trigger] left[i] == right[i],
    ensures
        lane_of(left, lane) != lane_of(right, lane),
    decreases left.len(),
{
    let last = left.len() - 1;
    let position = last as u64;
    let a = left.drop_last();
    let b = right.drop_last();
    if place == last {
        assert(a =~= b) by {
            assert forall|i: int| 0 <= i < a.len() implies a[i] == b[i] by {
                assert(left[i] == right[i]);
            }
        }
        if lane_of(left, lane) == lane_of(right, lane) {
            steps_keep_bytes_apart(lane_of(a, lane), left[last], right[last], position, lane);
        }
    } else {
        assert(left[last] == right[last]);
        assert forall|i: int| 0 <= i < a.len() && i != place implies #[trigger] a[i] == b[i] by {
            assert(left[i] == right[i]);
        }
        lanes_keep_contents_apart(a, b, place, lane);
        if lane_of(left, lane) == lane_of(right, lane) {
            steps_keep_values_apart(
                lane_of(a, lane),
                lane_of(b, lane),
                left[last],
                position,
                lane,
            );
        }
    }
}

/// Contents of one length that differ in a single byte, wherever it stands,
/// have different digests; every quarter of the digest tells them apart.
pub proof fn digests_tell_single_bytes_apart(left: Seq<u8>, right: Seq<u8>, place: int, lane: u64)
    requires
        lane < 4,
        left.len() == right.len(),
        0 <= place < left.len(),
        left[place] != right[place],
        forall|i: int| 0 <= i < left.len() && i != place ==> #[trigger] left[i] == right[i],
    ensures
        content_digest(left) != content_digest(right),
        content_digest(left).subrange(8 * lane as int, 8 * lane as int + 8)
            != content_digest(right).subrange(8 * lane as int, 8 * lane as int + 8),
{
    reveal(content_digest);
    lemma_auto_spec_u64_to_from_le_bytes();
    let from = 8 * lane as int;
    lanes_keep_contents_apart(left, right, place, lane);
    let mask = turned(left.len() as u64, (lane * 11) as u64);
    let m = lane_multiplier(lane);
    let x = (lane_of(left, lane) ^ mask).wrapping_mul(m);
    let y = (lane_of(right, lane) ^ mask).wrapping_mul(m);
    if x == y {
        multipliers_are_undone(lane, lane_of(left, lane) ^ mask, lane_of(right, lane) ^ mask);
        masks_come_off(lane_of(left, lane), lane_of(right, lane), mask);
    }
    let a = spec_u64_to_le_bytes(x);
    let b = spec_u64_to_le_bytes(y);
    assert(a != b);
    assert(lane_digest(left, lane) != lane_digest(right, lane)) by {
        if a.reverse() == b.reverse() {
            assert(a.reverse().reverse() =~= a);
            assert(b.reverse().reverse() =~= b);
        }
    }
    assert(content_digest(left).subrange(from, from + 8) =~= lane_digest(left, lane));
    assert(content_digest(right).subrange(from, from + 8) =~= lane_digest(right, lane));
}

// ---------------------------------------------------------------------------
// Digests of context.

proof fn small_differences_survive(a: u64, b: u64, turn: int)
    requires
        0 <= turn < 4,
        -256 < a - b < 256,
        a.wrapping_mul(multiplier(turn)) == b.wrapping_mul(multiplier(turn)),
    ensures
        a == b,
{
    let whole = 0x1_0000_0000_0000_0000int;
    let m = multiplier(turn) as int;
    assert(0x100000001b3u64 ^ 0x9e3779b97f4a7c15u64 == 0x9e3778b97f4a7da6u64) by (bit_vector);
    assert(0x100000001b3u64 ^ 0xd6e8feb86659fd93u64 == 0xd6e8ffb86659fc20u64) by (bit_vector);
    assert(0x100000001b3u64 ^ 0xa0761d6478bd642fu64 == 0xa0761c6478bd659cu64) by (bit_vector);
    let (x, y) = (a as int, b as int);
    let q = (x * m) / whole - (y * m) / whole;
    assert(x * m - y * m == q * whole) by (nonlinear_arith)
        requires
            (x * m) % whole == (y * m) % whole,
            q == (x * m) / whole - (y * m) / whole,
            whole == 0x1_0000_0000_0000_0000int,
    ;
    let d = x - y;
    assert(d * m == q * whole) by (nonlinear_arith)
        requires
            x * m - y * m == q * whole,
            d == x - y,
    ;
    if turn == 0 {
        odd_parts_do_not_vanish(d, q, m, 1);
    } else if turn == 1 {
        odd_parts_do_not_vanish(d, q, m, 2);
    } else if turn == 2 {
        odd_parts_do_not_vanish(d, q, m, 32);
    } else {
        odd_parts_do_not_vanish(d, q, m, 4);
    }
}

/// A small number times a number of which a small power of two can be taken
/// out is no multiple of the whole range, unless it is zero.
proof fn odd_parts_do_not_vanish(d: int, q: int, m: int, even: int)
    requires
        -256 < d < 256,
        d * m == q * 0x1_0000_0000_0000_0000,
        even == 1 || even == 2 || even == 4 || even == 32,
        (m / even) % 2 == 1,
        m % even == 0,
    ensures
        d == 0,
{
    let o = m / even;
    assert(m == o * even) by (nonlinear_arith)
        requires
            m % even == 0,
            o == m / even,
            even > 0,
    ;
    let rest = 0x1_0000_0000_0000_0000int / even;
    assert(d * o == q * rest) by (nonlinear_arith)
        requires
            d * m == q * 0x1_0000_0000_0000_0000,
            m == o * even,
            rest == 0x1_0000_0000_0000_0000int / even,
            even == 1 || even == 2 || even == 4 || even == 32,
    ;
    let p = q * (rest / 256);
    assert(d * o == p * 256) by (nonlinear_arith)
        requires
            d * o == q * rest,
            p == q * (rest / 256),
            rest == 0x1_0000_0000_0000_0000int / even,
            even == 1 || even == 2 || even == 4 || even == 32,
    ;
    reveal_with_fuel(power, 9);
    assert(power(8) == 256);
    halving(d, o, p, 8);
}

spec fn power(count: nat) -> int
    decreases count,
{
    if count == 0 {
        1
    } else {
        2 * power((count - 1) as nat)
    }
}

/// Where an odd multiple is a multiple of a power of two, so is the number.
proof fn halving(d: int, o: int, p: int, count: nat)
    requires
        o % 2 == 1,
        d * o == p * power(count),
        -power(count) < d < power(count),
    ensures
        d == 0,
    decreases count,
{
    if count > 0 {
        let less = power((count - 1) as nat);
        assert(d % 2 == 0) by (nonlinear_arith)
            requires
                o % 2 == 1,
                d * o == p * (2 * less),
        {
            let k = o / 2;
            assert(o == 2 * k + 1);
            assert(d * o == 2 * (d * k) + d) by (nonlinear_arith)
                requires
                    o == 2 * k + 1,
            ;
            assert(p * (2 * less) == 2 * (p * less)) by (nonlinear_arith);
        }
        let h = d / 2;
        assert(d == 2 * h);
        assert(h * o == p * less) by (nonlinear_arith)
            requires
                d == 2 * h,
                d * o == p * (2 * less),
        ;
        halving(h, o, p, (count - 1) as nat);
    }
}

/// Contents that differ in their last byte alone have different digests.
pub proof fn context_digests_tell_last_bytes_apart(front: Seq<u8>, a: u8, b: u8)
    requires
        a != b,
    ensures
        context_digest(front.push(a)) != context_digest(front.push(b)),
{
    reveal(context_digest);
    lemma_auto_spec_u64_to_from_le_bytes();
    assert(front.push(a).drop_last() =~= front);
    assert(front.push(b).drop_last() =~= front);
    let before = lanes_of(front);
    let turn = front.len() as int % 4;
    let (lane, neighbour) = if turn == 0 {
        (before.a, before.b)
    } else if turn == 1 {
        (before.b, before.c)
    } else if turn == 2 {
        (before.c, before.d)
    } else {
        (before.d, before.a)
    };
    let m = multiplier(turn);
    let x = lane ^ (a as u64);
    let y = lane ^ (b as u64);
    let mask = turned(neighbour, 13);
    assert(stirred(lane, a, m, neighbour) != stirred(lane, b, m, neighbour)) by {
        if stirred(lane, a, m, neighbour) == stirred(lane, b, m, neighbour) {
            masks_come_off(x.wrapping_mul(m), y.wrapping_mul(m), mask);
            last_bits_differ_a_little(lane, a, b);
            small_differences_survive(x, y, turn);
        }
    }
    let left = lanes_of(front.push(a));
    let right = lanes_of(front.push(b));
    let one = context_digest(front.push(a));
    let other = context_digest(front.push(b));
    if one == other {
        assert(one.subrange(0, 8) =~= spec_u64_to_le_bytes(left.a));
        assert(other.subrange(0, 8) =~= spec_u64_to_le_bytes(right.a));
        assert(one.subrange(8, 16) =~= spec_u64_to_le_bytes(left.b));
        assert(other.subrange(8, 16) =~= spec_u64_to_le_bytes(right.b));
        assert(one.subrange(16, 24) =~= spec_u64_to_le_bytes(left.c));
        assert(other.subrange(16, 24) =~= spec_u64_to_le_bytes(right.c));
        assert(one.subrange(24, 32) =~= spec_u64_to_le_bytes(left.d));
        assert(other.subrange(24, 32) =~= spec_u64_to_le_bytes(right.d));
    }
}

proof fn last_bits_differ_a_little(lane: u64, a: u8, b: u8)
    requires
        a != b,
    ensures
        -256 < (lane ^ (a as u64)) - (lane ^ (b as u64)) < 256,
        (lane ^ (a as u64)) != (lane ^ (b as u64)),
{
    let c = a as u64;
    let d = b as u64;
    let x = lane ^ c;
    let y = lane ^ d;
    assert(x >> 8 == y >> 8) by (bit_vector)
        requires
            x == lane ^ c,
            y == lane ^ d,
            c < 256,
            d < 256,
    ;
    assert(x >> 8 == x / 256) by (bit_vector);
    assert(y >> 8 == y / 256) by (bit_vector);
    assert(c != d ==> lane ^ c != lane ^ d) by (bit_vector);
}

} // verus!
