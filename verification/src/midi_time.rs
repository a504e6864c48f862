use vstd::prelude::*;

verus! {

/// Number of fractional steps that make up one MIDI clock tick.
pub const FRACTIONS_PER_TICK: i64 = 256;

/// MIDI clock ticks per beat (quarter note).
pub const TICKS_PER_BEAT: i32 = 24;

/// Smallest representable position, in fractional steps.
pub open spec fn min_fractions() -> int {
    i32::MIN as int * 256
}

/// One past the largest representable position, in fractional steps.
pub open spec fn max_fractions() -> int {
    (i32::MAX as int + 1) * 256
}

/// Whether a position counted in fractional steps can be held by a `MidiTime`.
pub open spec fn fits(f: int) -> bool {
    min_fractions() <= f < max_fractions()
}

/// A position or duration on the MIDI clock: whole ticks plus a fraction of a tick
/// (in 256ths). Its view is the total number of 256ths of a tick.
#[derive(Debug, Copy, Clone, PartialEq, Eq, Structural, Hash, PartialOrd, Ord)]
pub struct MidiTime {
    ticks: i32,
    fraction: u8,
}

impl View for MidiTime {
    type V = int;

    closed spec fn view(&self) -> int {
        self.ticks as int * 256 + self.fraction as int
    }
}

/// Floor division of a fraction count by the steps of one tick.
pub open spec fn floor_ticks(f: int) -> int {
    f / 256
}

/// Euclidean remainder, the position of `a` within a cycle of length `m`.
pub open spec fn wrap(a: int, m: int) -> int
    recommends
        m > 0,
{
    a % m
}

pub proof fn lemma_view_fits(a: MidiTime)
    ensures
        fits(a@),
{
}

pub proof fn lemma_view_determines(a: MidiTime, b: MidiTime)
    ensures
        a@ == b@ <==> a == b,
{
}

/// The time `f` fractional steps from the start of the clock.
pub closed spec fn time_at(f: int) -> MidiTime {
    MidiTime { ticks: floor_ticks(f) as i32, fraction: (f % 256) as u8 }
}

/// A position that fits is the view of the time at it, and every time is the time at its view.
pub proof fn lemma_time_at(f: int, t: MidiTime)
    ensures
        fits(f) ==> time_at(f)@ == f,
        time_at(t@) == t,
{
}

impl MidiTime {
    /// Builds the time whose view is `f` fractional steps.
    pub fn from_fractions(f: i64) -> (r: MidiTime)
        requires
            fits(f as int),
        ensures
            r@ == f,
    {
        let t = if f >= 0 { f / 256 } else { -((-f + 255) / 256) };
        let fr = f - t * 256;
        proof {
            assert(t == f / 256) by {
                if f < 0 {
                    assert((-f + 255) / 256 * 256 <= -f + 255);
                    assert((-f + 255) / 256 * 256 > -f + 255 - 256);
                }
            }
        }
        MidiTime { ticks: t as i32, fraction: fr as u8 }
    }

    /// The time, in fractional steps.
    pub fn fractions(&self) -> (r: i64)
        ensures
            r == self@,
    {
        self.ticks as i64 * 256 + self.fraction as i64
    }

    /// The start of the clock.
    pub fn zero() -> (r: MidiTime)
        ensures
            r@ == 0,
    {
        MidiTime { ticks: 0, fraction: 0 }
    }

    /// A single clock tick.
    pub fn tick() -> (r: MidiTime)
        ensures
            r@ == 256,
    {
        MidiTime { ticks: 1, fraction: 0 }
    }

    /// A whole number of ticks.
    pub fn from_ticks(ticks: i32) -> (r: MidiTime)
        ensures
            r@ == ticks * 256,
    {
        MidiTime { ticks, fraction: 0 }
    }

    /// A number of 256ths of a tick.
    pub fn from_sub_ticks(sub_ticks: i32) -> (r: MidiTime)
        ensures
            r@ == sub_ticks,
    {
        MidiTime::from_fractions(sub_ticks as i64)
    }

    /// A whole number of beats (24 ticks each).
    pub fn from_beats(beats: i32) -> (r: MidiTime)
        requires
            fits(beats * 24 * 256),
        ensures
            r@ == beats * 24 * 256,
    {
        MidiTime::from_fractions(beats as i64 * 24 * 256)
    }

    /// `beats / divider` of a beat, rounded down to a fractional step.
    pub fn from_measure(beats: i32, divider: i32) -> (r: MidiTime)
        requires
            divider > 0,
            -0x100_0000 <= beats <= 0x100_0000,
        ensures
            r@ == (beats * 24 * 256) / (divider as int),
    {
        let total = beats as i64 * 24 * 256;
        let q = if total >= 0 { total / divider as i64 } else { -((-total + divider as i64 - 1) / divider as i64) };
        proof {
            let d = divider as int;
            let t = total as int;
            let qi = q as int;
            assert(-0x100_0000 * 6144 <= t <= 0x100_0000 * 6144);
            assert(qi == t / d) by {
                if t < 0 {
                    let u = -t + d - 1;
                    vstd::arithmetic::div_mod::lemma_fundamental_div_mod(u, d);
                    let k = u / d;
                    let sr = u % d;
                    assert(qi == -k);
                    assert(t == qi * d + (d - 1 - sr)) by (nonlinear_arith)
                        requires u == d * k + sr, qi == -k, u == -t + d - 1;
                    vstd::arithmetic::div_mod::lemma_fundamental_div_mod_converse(t, d, qi, d - 1 - sr);
                }
            }
            assert(fits(qi)) by (nonlinear_arith)
                requires qi == t / d, d > 0, -0x100_0000 * 6144 <= t <= 0x100_0000 * 6144;
        }
        MidiTime::from_fractions(q)
    }

    /// Whole ticks, rounded towards negative infinity.
    pub fn ticks(&self) -> (r: i32)
        ensures
            r == floor_ticks(self@),
    {
        self.ticks
    }

    /// The fractional part of a tick, in 256ths.
    pub fn sub_ticks(&self) -> (r: u8)
        ensures
            r == self@ % 256,
    {
        self.fraction
    }

    /// Sum of two times.
    pub fn plus(&self, other: MidiTime) -> (r: MidiTime)
        requires
            fits(self@ + other@),
        ensures
            r@ == self@ + other@,
    {
        MidiTime::from_fractions(self.fractions() + other.fractions())
    }

    /// Difference of two times.
    pub fn minus(&self, other: MidiTime) -> (r: MidiTime)
        requires
            fits(self@ - other@),
        ensures
            r@ == self@ - other@,
    {
        MidiTime::from_fractions(self.fractions() - other.fractions())
    }

    /// Position of this time within a cycle of the given (positive) length.
    pub fn modulo(&self, length: MidiTime) -> (r: MidiTime)
        requires
            length@ > 0,
        ensures
            r@ == wrap(self@, length@),
            0 <= r@ < length@,
    {
        let a = self.fractions();
        let m = length.fractions();
        let e = if a >= 0 {
            a % m
        } else {
            let r = (-a) % m;
            if r == 0 { 0 } else { m - r }
        };
        proof {
            let ai = a as int;
            let mi = m as int;
            if ai < 0 {
                let q = (-ai) / mi;
                let r = (-ai) % mi;
                vstd::arithmetic::div_mod::lemma_fundamental_div_mod(-ai, mi);
                if r == 0 {
                    assert(ai == (-q) * mi + 0) by (nonlinear_arith)
                        requires -ai == mi * q + r, r == 0;
                    vstd::arithmetic::div_mod::lemma_fundamental_div_mod_converse(ai, mi, -q, 0);
                } else {
                    assert(ai == (-q - 1) * mi + (mi - r)) by (nonlinear_arith)
                        requires -ai == mi * q + r;
                    vstd::arithmetic::div_mod::lemma_fundamental_div_mod_converse(ai, mi, -q - 1, mi - r);
                }
            }
        }
        MidiTime::from_fractions(e)
    }

    /// Half of this time, rounded down to a fractional step.
    pub fn half(&self) -> (r: MidiTime)
        ensures
            r@ == self@ / 2,
    {
        let f = self.fractions();
        let h = if f >= 0 { f / 2 } else { -((-f + 1) / 2) };
        proof {
            if f < 0 {
                assert(h == f / 2) by {
                    let g = -f;
                    assert(g % 2 == 0 || g % 2 == 1);
                }
            }
        }
        MidiTime::from_fractions(h)
    }

    /// This time with its fractional part dropped.
    pub fn floor(&self) -> (r: MidiTime)
        ensures
            r@ == floor_ticks(self@) * 256,
    {
        MidiTime { ticks: self.ticks, fraction: 0 }
    }

    /// This time moved to the nearest whole tick (halfway rounds up).
    pub fn round(&self) -> (r: MidiTime)
        requires
            fits(floor_ticks(self@ + 128) * 256),
        ensures
            r@ == floor_ticks(self@ + 128) * 256,
    {
        if self.fraction >= 128 {
            MidiTime { ticks: self.ticks + 1, fraction: 0 }
        } else {
            MidiTime { ticks: self.ticks, fraction: 0 }
        }
    }

    /// The greatest multiple of `rate` that is not after this time.
    pub fn quantize(&self, rate: MidiTime) -> (r: MidiTime)
        requires
            rate@ > 0,
            fits(self@ - wrap(self@, rate@)),
        ensures
            r@ == self@ - wrap(self@, rate@),
    {
        let m = self.modulo(rate);
        self.minus(m)
    }

    /// Whether this time falls exactly on a beat.
    pub fn is_whole_beat(&self) -> (r: bool)
        ensures
            r == (self@ % 6144int == 0),
    {
        self.fraction == 0 && self.ticks % 24 == 0
    }

    /// Strictly before.
    pub fn is_before(&self, other: MidiTime) -> (r: bool)
        ensures
            r == (self@ < other@),
    {
        self.fractions() < other.fractions()
    }

    /// Before or at.
    pub fn is_at_or_before(&self, other: MidiTime) -> (r: bool)
        ensures
            r == (self@ <= other@),
    {
        self.fractions() <= other.fractions()
    }

    /// The later of two times.
    pub fn later(&self, other: MidiTime) -> (r: MidiTime)
        ensures
            r == if self@ >= other@ { *self } else { other },
    {
        if self.fractions() >= other.fractions() {
            *self
        } else {
            other
        }
    }
}

} // verus!
