//! Decoding of the raw values of a game snapshot: color and effect codes,
//! single-precision numbers, tokens and the shooter.

use vstd::prelude::*;
use vstd::arithmetic::power2::{pow2, lemma_pow2_pos, lemma_pow2_unfold, lemma_pow2_strictly_increases};
use crate::geometry::{Point, SCALE, MAX_COORD};
use crate::model::{Ball, BallColor, BallEffect, Frog, MAX_DIST, MAX_SPEED};

verus! {

/// Why a raw value could not be decoded.
#[derive(Clone, Copy, Debug, PartialEq, Eq, Structural)]
pub enum DecodeError {
    /// A color code outside the six colors.
    UnknownColor(u32),
    /// An effect code outside the five effects.
    UnknownEffect(u32),
    /// A number that is not finite or does not fit its range.
    OutOfRange(u32),
}

pub open spec fn color_of(num: u32) -> Option<BallColor> {
    if num == 0 {
        Some(BallColor::Blue)
    } else if num == 1 {
        Some(BallColor::Yellow)
    } else if num == 2 {
        Some(BallColor::Red)
    } else if num == 3 {
        Some(BallColor::Green)
    } else if num == 4 {
        Some(BallColor::Purple)
    } else if num == 5 {
        Some(BallColor::White)
    } else {
        None
    }
}

pub open spec fn effect_of(num: u32) -> Option<BallEffect> {
    if num == 0 {
        Some(BallEffect::Bomb)
    } else if num == 1 {
        Some(BallEffect::Slow)
    } else if num == 2 {
        Some(BallEffect::Visor)
    } else if num == 3 {
        Some(BallEffect::Reverse)
    } else if num == 4 {
        Some(BallEffect::NoEffect)
    } else {
        None
    }
}

/// The color with the given code; any other code is an error.
pub fn number_to_color(num: u32) -> (r: Result<BallColor, DecodeError>)
    ensures
        color_of(num) matches Some(c) ==> r == Ok::<BallColor, DecodeError>(c),
        color_of(num) is None ==> r == Err::<BallColor, DecodeError>(DecodeError::UnknownColor(num)),
{
    match num {
        0 => Ok(BallColor::Blue),
        1 => Ok(BallColor::Yellow),
        2 => Ok(BallColor::Red),
        3 => Ok(BallColor::Green),
        4 => Ok(BallColor::Purple),
        5 => Ok(BallColor::White),
        _ => Err(DecodeError::UnknownColor(num)),
    }
}

/// The effect with the given code; any other code is an error.
pub fn number_to_effect(num: u32) -> (r: Result<BallEffect, DecodeError>)
    ensures
        effect_of(num) matches Some(e) ==> r == Ok::<BallEffect, DecodeError>(e),
        effect_of(num) is None ==> r == Err::<BallEffect, DecodeError>(DecodeError::UnknownEffect(num)),
{
    match num {
        0 => Ok(BallEffect::Bomb),
        1 => Ok(BallEffect::Slow),
        2 => Ok(BallEffect::Visor),
        3 => Ok(BallEffect::Reverse),
        4 => Ok(BallEffect::NoEffect),
        _ => Err(DecodeError::UnknownEffect(num)),
    }
}

/// The value of the single-precision number with the given bits, in
/// fixed-point steps, rounded toward zero; `None` for an infinity or a NaN.
/// Subnormal numbers are far below one step and give zero.
pub open spec fn f32_to_fixed(bits: u32) -> Option<int> {
    let exp = (bits / 0x80_0000) % 0x100;
    let mantissa = bits % 0x80_0000 + 0x80_0000;
    let scaled = mantissa * (SCALE as int);
    if exp == 0xff {
        None
    } else {
        let mag: int = if exp == 0 {
            0
        } else if exp >= 150 {
            scaled * pow2((exp - 150) as nat)
        } else {
            scaled / (pow2((150 - exp) as nat) as int)
        };
        Some(if bits >= 0x8000_0000 { -mag } else { mag })
    }
}

/// `f32_to_fixed`, where it is finite and at most `MAX_DIST` in magnitude.
pub open spec fn fixed_in_range(bits: u32) -> Option<i64> {
    match f32_to_fixed(bits) {
        Some(v) => if -MAX_DIST <= v <= MAX_DIST {
            Some(v as i64)
        } else {
            None
        },
        None => None,
    }
}

/// Decodes the bits of a single-precision number into fixed-point steps,
/// rounded toward zero; `None` when it is not finite or exceeds `MAX_DIST`.
pub fn f32_bits_to_fixed(bits: u32) -> (r: Option<i64>)
    ensures
        r == fixed_in_range(bits),
{
    let exp: u32 = (bits / 0x80_0000) % 0x100;
    let mantissa: u64 = (bits % 0x80_0000 + 0x80_0000) as u64;
    let scaled: u64 = mantissa * 100;
    if exp == 0xff {
        return None;
    }
    let mag: u64;
    if exp == 0 {
        mag = 0;
    } else if exp >= 150 {
        let shift: u32 = exp - 150;
        if shift > 10 {
            proof {
                lemma_pow2_value(11);
                if shift > 11 {
                    lemma_pow2_strictly_increases(11, shift as nat);
                }
                assert(scaled * pow2(shift as nat) > MAX_DIST) by (nonlinear_arith)
                    requires
                        scaled >= 0x80_0000 * 100,
                        pow2(shift as nat) >= 2048,
                ;
            }
            return None;
        }
        let mut k: u32 = 0;
        let mut m: u64 = scaled;
        proof {
            lemma_pow2_value(0);
        }
        while k < shift
            invariant
                k <= shift <= 10,
                scaled < 0x80_0000 * 2 * 100,
                m == scaled * pow2(k as nat),
                m <= scaled * 1024,
            decreases shift - k,
        {
            proof {
                lemma_pow2_unfold((k + 1) as nat);
                if k + 1 < 10 {
                    lemma_pow2_strictly_increases((k + 1) as nat, 10);
                }
                lemma_pow2_value(10);
                assert(scaled * pow2((k + 1) as nat) <= scaled * 1024) by (nonlinear_arith)
                    requires
                        pow2((k + 1) as nat) <= 1024,
                ;
                assert(scaled * pow2((k + 1) as nat) == 2 * m) by (nonlinear_arith)
                    requires
                        m == scaled * pow2(k as nat),
                        pow2((k + 1) as nat) == 2 * pow2(k as nat),
                ;
            }
            m = m * 2;
            k += 1;
        }
        mag = m;
    } else {
        let shift: u32 = 150 - exp;
        if shift >= 32 {
            proof {
                lemma_pow2_value(32);
                if shift > 32 {
                    lemma_pow2_strictly_increases(32, shift as nat);
                }
                assert((scaled as int) / (pow2(shift as nat) as int) == 0) by (nonlinear_arith)
                    requires
                        0 <= scaled < pow2(shift as nat),
                ;
            }
            mag = 0;
        } else {
            let mut k: u32 = 0;
            let mut p: u64 = 1;
            proof {
                lemma_pow2_value(0);
            }
            while k < shift
                invariant
                    k <= shift < 32,
                    p == pow2(k as nat),
                    p <= 0x1_0000_0000,
                decreases shift - k,
            {
                proof {
                    lemma_pow2_unfold((k + 1) as nat);
                    lemma_pow2_strictly_increases((k + 1) as nat, 32);
                    lemma_pow2_value(32);
                }
                p = p * 2;
                k += 1;
            }
            proof {
                lemma_pow2_pos(shift as nat);
            }
            mag = scaled / p;
        }
    }
    if mag > MAX_DIST as u64 {
        return None;
    }
    if bits >= 0x8000_0000 {
        Some(-(mag as i64))
    } else {
        Some(mag as i64)
    }
}

proof fn lemma_pow2_value(e: nat)
    requires
        e == 0 || e == 10 || e == 11 || e == 32,
    ensures
        e == 0 ==> pow2(e) == 1,
        e == 10 ==> pow2(e) == 1024,
        e == 11 ==> pow2(e) == 2048,
        e == 32 ==> pow2(e) == 0x1_0000_0000,
{
    vstd::arithmetic::power2::lemma2_to64();
}

/// The token read from a snapshot: its id, color and effect codes and the
/// bits of its coordinates and of its distance along the path.
pub fn decode_ball(id: u32, color: u32, effect: u32, x_bits: u32, y_bits: u32, dist_bits: u32) -> (r: Result<Ball, DecodeError>)
    ensures
        color_of(color) is None ==> r == Err::<Ball, DecodeError>(DecodeError::UnknownColor(color)),
        color_of(color) is Some && effect_of(effect) is None ==> r == Err::<Ball, DecodeError>(DecodeError::UnknownEffect(effect)),
        r is Ok <==> {
            &&& color_of(color) is Some
            &&& effect_of(effect) is Some
            &&& fixed_in_range(x_bits) matches Some(x) && -MAX_COORD <= x <= MAX_COORD
            &&& fixed_in_range(y_bits) matches Some(y) && -MAX_COORD <= y <= MAX_COORD
            &&& fixed_in_range(dist_bits) is Some
        },
        r matches Err(DecodeError::OutOfRange(bits)) ==> bits == x_bits || bits == y_bits || bits
            == dist_bits,
        r matches Ok(b) ==> {
            &&& b.wf()
            &&& b.id == id
            &&& Some(b.color) == color_of(color)
            &&& Some(b.effect) == effect_of(effect)
            &&& Some(b.coordinates.x) == fixed_in_range(x_bits)
            &&& Some(b.coordinates.y) == fixed_in_range(y_bits)
            &&& Some(b.distance_along_path) == fixed_in_range(dist_bits)
            &&& b.is_reachable
        },
{
    let c = match number_to_color(color) {
        Ok(c) => c,
        Err(e) => return Err(e),
    };
    let fx = match number_to_effect(effect) {
        Ok(e) => e,
        Err(e) => return Err(e),
    };
    let x = match f32_bits_to_fixed(x_bits) {
        Some(x) => x,
        None => return Err(DecodeError::OutOfRange(x_bits)),
    };
    let y = match f32_bits_to_fixed(y_bits) {
        Some(y) => y,
        None => return Err(DecodeError::OutOfRange(y_bits)),
    };
    if x < -MAX_COORD || x > MAX_COORD {
        return Err(DecodeError::OutOfRange(x_bits));
    }
    if y < -MAX_COORD || y > MAX_COORD {
        return Err(DecodeError::OutOfRange(y_bits));
    }
    let d = match f32_bits_to_fixed(dist_bits) {
        Some(d) => d,
        None => return Err(DecodeError::OutOfRange(dist_bits)),
    };
    Ok(
        Ball {
            coordinates: Point { x, y },
            is_reachable: true,
            color: c,
            effect: fx,
            distance_along_path: d,
            id,
        },
    )
}

/// The shooter read from a snapshot: its position in whole path units, the
/// two tokens it holds and the bits of the speed of a fired token.
pub fn decode_frog(x: u32, y: u32, active_ball: Ball, next_ball: Ball, speed_bits: u32) -> (r: Result<Frog, DecodeError>)
    ensures
        r is Ok <==> {
            &&& x * SCALE <= MAX_COORD
            &&& y * SCALE <= MAX_COORD
            &&& fixed_in_range(speed_bits) matches Some(s) && 1 <= s <= MAX_SPEED
        },
        r matches Err(e) ==> e == DecodeError::OutOfRange(x) || e == DecodeError::OutOfRange(y) || e
            == DecodeError::OutOfRange(speed_bits),
        r matches Ok(f) ==> {
            &&& f.wf()
            &&& f.location == (Point { x: (x * SCALE) as i64, y: (y * SCALE) as i64 })
            &&& f.active_ball == active_ball
            &&& f.next_ball == next_ball
            &&& Some(f.ball_exit_speed) == fixed_in_range(speed_bits)
        },
{
    if x as i64 > MAX_COORD / SCALE {
        return Err(DecodeError::OutOfRange(x));
    }
    if y as i64 > MAX_COORD / SCALE {
        return Err(DecodeError::OutOfRange(y));
    }
    let speed = match f32_bits_to_fixed(speed_bits) {
        Some(s) => s,
        None => return Err(DecodeError::OutOfRange(speed_bits)),
    };
    if speed < 1 || speed > MAX_SPEED {
        return Err(DecodeError::OutOfRange(speed_bits));
    }
    Ok(
        Frog {
            location: Point { x: (x as i64) * SCALE, y: (y as i64) * SCALE },
            active_ball,
            next_ball,
            ball_exit_speed: speed,
        },
    )
}

} // verus!
