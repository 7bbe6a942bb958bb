//! Angle utilities over binary angles: an angle is a number of units, where
//! `ANGLE_TURN` units make one full turn.  Every function first reduces its
//! arguments into `[0, ANGLE_TURN)`, the residue of a full turn.

use vstd::prelude::*;

verus! {

/// Number of angle units in one full turn.
pub const ANGLE_TURN: u64 = 0x100000000;

/// An arbitrary angle reduced into `[0, ANGLE_TURN)`.
pub open spec fn norm_spec(a: int) -> int {
    a % (ANGLE_TURN as int)
}

/// Non-negative angular distance travelling clockwise from `from` to `to`.
pub open spec fn diff_cw_spec(from: int, to: int) -> int {
    norm_spec(from - to)
}

/// Non-negative angular distance travelling counterclockwise from `from` to
/// `to`.
pub open spec fn diff_ccw_spec(from: int, to: int) -> int {
    norm_spec(to - from)
}

/// Whether `angle` lies on the clockwise walk from `from` to `to`, closed at
/// `from` and open at `to`.
pub open spec fn is_between_cw_spec(angle: int, from: int, to: int) -> bool {
    let a = norm_spec(angle);
    let f = norm_spec(from);
    let t = norm_spec(to);
    if f < t {
        a <= f || a > t
    } else {
        a <= f && a > t
    }
}

/// Whether `angle` lies strictly between `min` and `max` counterclockwise,
/// open at both ends.
pub open spec fn angle_within_spec(angle: int, min: int, max: int) -> bool {
    let a = norm_spec(angle);
    let f = norm_spec(min);
    let t = norm_spec(max);
    if f < t {
        f < a && a < t
    } else {
        a < t || a > f
    }
}

/// Reduces an angle into `[0, ANGLE_TURN)`.
pub fn normalize_angle(a: i64) -> (r: u64)
    ensures
        r == norm_spec(a as int),
        r < ANGLE_TURN,
{
    let q = crate::num::div_floor(a as i128, ANGLE_TURN as i128);
    proof {
        vstd::arithmetic::div_mod::lemma_fundamental_div_mod(a as int, ANGLE_TURN as int);
        vstd::arithmetic::div_mod::lemma_mod_bound(a as int, ANGLE_TURN as int);
    }
    (a as i128 - q * ANGLE_TURN as i128) as u64
}

/// Clockwise angular distance, in `[0, ANGLE_TURN)`.
pub fn diff_cw(from: i64, to: i64) -> (r: u64)
    ensures
        r == diff_cw_spec(from as int, to as int),
        r < ANGLE_TURN,
{
    let f = normalize_angle(from);
    let t = normalize_angle(to);
    proof {
        vstd::arithmetic::div_mod::lemma_sub_mod_noop(
            from as int,
            to as int,
            ANGLE_TURN as int,
        );
        vstd::arithmetic::div_mod::lemma_mod_twice(
            from as int - to as int,
            ANGLE_TURN as int,
        );
    }
    if f >= t {
        proof {
            vstd::arithmetic::div_mod::lemma_small_mod((f - t) as nat, ANGLE_TURN as nat);
        }
        f - t
    } else {
        proof {
            vstd::arithmetic::div_mod::lemma_mod_add_multiples_vanish(
                f as int - t as int,
                ANGLE_TURN as int,
            );
            vstd::arithmetic::div_mod::lemma_small_mod(
                (f as int - t as int + ANGLE_TURN as int) as nat,
                ANGLE_TURN as nat,
            );
        }
        f + ANGLE_TURN - t
    }
}

/// Counterclockwise angular distance, in `[0, ANGLE_TURN)`.
pub fn diff_ccw(from: i64, to: i64) -> (r: u64)
    ensures
        r == diff_ccw_spec(from as int, to as int),
        r < ANGLE_TURN,
{
    diff_cw(to, from)
}

/// The two angular distances between two angles sum to a full turn, except
/// that both vanish for equal angles.
pub proof fn lemma_diff_cw_ccw(from: int, to: int)
    ensures
        norm_spec(from) == norm_spec(to) ==> diff_cw_spec(from, to) == 0
            && diff_ccw_spec(from, to) == 0,
        norm_spec(from) != norm_spec(to) ==> diff_cw_spec(from, to) + diff_ccw_spec(from, to)
            == ANGLE_TURN,
{
    let t = ANGLE_TURN as int;
    vstd::arithmetic::div_mod::lemma_sub_mod_noop(from, to, t);
    vstd::arithmetic::div_mod::lemma_sub_mod_noop(to, from, t);
    vstd::arithmetic::div_mod::lemma_mod_twice(from - to, t);
    vstd::arithmetic::div_mod::lemma_mod_twice(to - from, t);
    let f = norm_spec(from);
    let g = norm_spec(to);
    vstd::arithmetic::div_mod::lemma_mod_bound(from, t);
    vstd::arithmetic::div_mod::lemma_mod_bound(to, t);
    if f == g {
        vstd::arithmetic::div_mod::lemma_small_mod(0nat, t as nat);
    } else if f > g {
        vstd::arithmetic::div_mod::lemma_small_mod((f - g) as nat, t as nat);
        vstd::arithmetic::div_mod::lemma_mod_add_multiples_vanish(g - f, t);
        vstd::arithmetic::div_mod::lemma_small_mod((g - f + t) as nat, t as nat);
    } else {
        vstd::arithmetic::div_mod::lemma_small_mod((g - f) as nat, t as nat);
        vstd::arithmetic::div_mod::lemma_mod_add_multiples_vanish(f - g, t);
        vstd::arithmetic::div_mod::lemma_small_mod((f - g + t) as nat, t as nat);
    }
}

/// Whether `angle` lies on the clockwise walk from `from` to `to`, closed at
/// `from` and open at `to`.
pub fn is_between_cw(angle: i64, from: i64, to: i64) -> (r: bool)
    ensures
        r == is_between_cw_spec(angle as int, from as int, to as int),
{
    let a = normalize_angle(angle);
    let f = normalize_angle(from);
    let t = normalize_angle(to);
    if f < t {
        a <= f || a > t
    } else {
        a <= f && a > t
    }
}

/// Whether `angle` lies on the counterclockwise walk from `from` to `to`,
/// open at `from` and closed at `to`.
pub fn is_between_ccw(angle: i64, from: i64, to: i64) -> (r: bool)
    ensures
        r == !is_between_cw_spec(angle as int, from as int, to as int),
{
    !is_between_cw(angle, from, to)
}

/// Whether `angle` lies strictly inside the counterclockwise sweep from `min`
/// to `max`.
pub fn angle_within(angle: i64, min: i64, max: i64) -> (r: bool)
    ensures
        r == angle_within_spec(angle as int, min as int, max as int),
{
    let a = normalize_angle(angle);
    let f = normalize_angle(min);
    let t = normalize_angle(max);
    if f < t {
        f < a && a < t
    } else {
        a < t || a > f
    }
}

} // verus!
